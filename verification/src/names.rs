//! Names that no element has yet: `Brick 2` after `Brick`, `3D View 3` after `3D View 1`
//! and `3D View 2`.

use vstd::prelude::*;

use crate::digits::{decimal, decimal_text, lemma_decimal_injective};
use crate::text::{chars_of, extend, same_chars, string_of};

verus! {

/// `base`, a space and the number `i`.
pub open spec fn numbered(base: Seq<char>, i: nat) -> Seq<char> {
    base + seq![' '] + decimal(i)
}

/// `i` is the first number from `start` on whose numbered name is not taken.
pub open spec fn first_free(taken: Seq<Seq<char>>, base: Seq<char>, start: nat, i: nat) -> bool {
    &&& start <= i
    &&& !taken.contains(numbered(base, i))
    &&& forall|j: nat| start <= j < i ==> taken.contains(#[trigger] numbered(base, j))
}

/// The names of a list of strings.
pub open spec fn names_of(v: Seq<String>) -> Seq<Seq<char>> {
    v.map_values(|s: String| s@)
}

proof fn lemma_numbered_injective(base: Seq<char>, i: nat, j: nat)
    requires
        numbered(base, i) == numbered(base, j),
    ensures
        i == j,
{
    let k = base.len() + 1;
    assert(numbered(base, i).skip(k as int) =~= decimal(i));
    assert(numbered(base, j).skip(k as int) =~= decimal(j));
    lemma_decimal_injective(i, j);
}

/// At most as many numbered names as there are taken names can all be taken.
proof fn lemma_taken_bound(taken: Seq<Seq<char>>, base: Seq<char>, start: nat, i: nat)
    requires
        start <= i,
        forall|j: nat| start <= j <= i ==> taken.contains(#[trigger] numbered(base, j)),
    ensures
        i - start < taken.len(),
{
    let n = (i - start + 1) as nat;
    let cands = Seq::new(n, |k: int| numbered(base, (start + k) as nat));
    assert(cands.no_duplicates()) by {
        assert forall|a: int, b: int| 0 <= a < cands.len() && 0 <= b < cands.len() && a != b implies cands[a]
            != cands[b] by {
            if cands[a] == cands[b] {
                lemma_numbered_injective(base, (start + a) as nat, (start + b) as nat);
            }
        }
    }
    cands.unique_seq_to_set();
    assert(cands.to_set().subset_of(taken.to_set())) by {
        assert forall|x: Seq<char>| cands.to_set().contains(x) implies taken.to_set().contains(x) by {
            let a = choose|a: int| 0 <= a < cands.len() && cands[a] == x;
            assert(taken.contains(numbered(base, (start + a) as nat)));
        }
    }
    taken.lemma_cardinality_of_set();
    vstd::set_lib::lemma_len_subset(cands.to_set(), taken.to_set());
}

/// Whether `taken` holds the name `n`.
fn is_taken(taken: &Vec<String>, n: &Vec<char>) -> (r: bool)
    ensures
        r == names_of(taken@).contains(n@),
{
    let mut i: usize = 0;
    while i < taken.len()
        invariant
            i <= taken.len(),
            forall|j: int| 0 <= j < i ==> names_of(taken@)[j] != n@,
        decreases taken.len() - i,
    {
        let t = chars_of(taken[i].as_str());
        if same_chars(&t, n) {
            assert(names_of(taken@)[i as int] == n@);
            return true;
        }
        i += 1;
    }
    false
}

/// `base`, a space and `i`, as characters.
fn numbered_chars(base: &Vec<char>, i: u64) -> (r: Vec<char>)
    ensures
        r@ == numbered(base@, i as nat),
{
    let mut r: Vec<char> = Vec::new();
    extend(&mut r, base);
    r.push(' ');
    let d = decimal_text(i);
    extend(&mut r, &d);
    r
}

/// The first number from `start` on whose numbered name is not taken.
fn first_free_number(taken: &Vec<String>, base: &Vec<char>, start: u64) -> (i: u64)
    requires
        1 <= start <= 2,
        taken@.len() < 0x7fff_fffe,
    ensures
        first_free(names_of(taken@), base@, start as nat, i as nat),
{
    let ghost names = names_of(taken@);
    let mut i: u64 = start;
    loop
        invariant
            1 <= start <= 2,
            taken@.len() < 0x7fff_fffe,
            start <= i,
            i - start <= taken.len(),
            names == names_of(taken@),
            forall|j: nat| start <= j < i ==> names.contains(#[trigger] numbered(base@, j)),
        decreases taken.len() - (i - start),
    {
        let cand = numbered_chars(base, i);
        if !is_taken(taken, &cand) {
            return i;
        }
        proof {
            assert forall|j: nat| start <= j <= i implies names.contains(#[trigger] numbered(base@, j)) by {
                if j < i {
                } else {
                    assert(j == i);
                }
            }
            lemma_taken_bound(names, base@, start as nat, i as nat);
        }
        i += 1;
    }
}

/// `base` when no element has that name, else `base` with the first number from 2 on that
/// makes it free.
pub fn unique_name(taken: &Vec<String>, base: &str) -> (r: String)
    requires
        taken@.len() < 0x7fff_fffe,
    ensures
        !names_of(taken@).contains(base@) ==> r@ == base@,
        names_of(taken@).contains(base@) ==> exists|i: nat| first_free(names_of(taken@), base@, 2, i) && r@ == numbered(base@, i),
{
    let b = chars_of(base);
    if !is_taken(taken, &b) {
        return string_of(&b);
    }
    let i = first_free_number(taken, &b, 2);
    let r = numbered_chars(&b, i);
    assert(first_free(names_of(taken@), base@, 2, i as nat));
    string_of(&r)
}

/// "3D View 1", "3D View 2"…: the first free camera view name, as Revit numbers them.
pub fn next_name(taken: &Vec<String>) -> (r: String)
    requires
        taken@.len() < 0x7fff_fffe,
    ensures
        exists|i: nat| first_free(names_of(taken@), "3D View"@, 1, i) && r@ == numbered("3D View"@, i),
{
    let b = chars_of("3D View");
    let i = first_free_number(taken, &b, 1);
    let r = numbered_chars(&b, i);
    assert(first_free(names_of(taken@), "3D View"@, 1, i as nat));
    string_of(&r)
}

} // verus!

//! Parameters. Built-in parameters are typed fields of an element's data; project
//! parameters, defined by the user for chosen categories, live in each element's key to
//! value map, so new ones never need a file-format change.

use vstd::prelude::*;

use crate::document::CoreError;
use crate::element::Category;
use crate::text::{alnum, append, ascii_lower, chars_of, is_alnum, is_digit, lower, owned, same, same_chars, string_of, trim_of, trimmed, is_white, lemma_blank_trims_to_nothing};

verus! {

/// The kind of value a parameter holds.
#[derive(Debug, Clone, Copy, PartialEq, Eq, Structural)]
pub enum ParamKind {
    Length,
    Area,
    Angle,
    Number,
    Integer,
    Bool,
    Text,
}

impl ParamKind {
    /// The label shown to users.
    pub open spec fn label_text(self) -> Seq<char> {
        match self {
            ParamKind::Text => "Text"@,
            ParamKind::Length => "Length"@,
            ParamKind::Area => "Area"@,
            ParamKind::Angle => "Angle"@,
            ParamKind::Number => "Number"@,
            ParamKind::Integer => "Integer"@,
            ParamKind::Bool => "Yes/No"@,
        }
    }

    /// The variant's name as written in code and files.
    pub open spec fn debug_text(self) -> Seq<char> {
        match self {
            ParamKind::Text => "Text"@,
            ParamKind::Length => "Length"@,
            ParamKind::Area => "Area"@,
            ParamKind::Angle => "Angle"@,
            ParamKind::Number => "Number"@,
            ParamKind::Integer => "Integer"@,
            ParamKind::Bool => "Bool"@,
        }
    }

    /// Whether `s` is this variant's label or its name.
    pub open spec fn is_named(self, s: Seq<char>) -> bool {
        self.label_text() == s || self.debug_text() == s
    }

    /// Every kind, in the order offered to users (and tried by [`ParamKind::parse`]).
    pub fn all() -> (v: Vec<ParamKind>)
        ensures
            v@ == seq![ParamKind::Text, ParamKind::Length, ParamKind::Area, ParamKind::Angle, ParamKind::Number, ParamKind::Integer, ParamKind::Bool],
    {
        vec![ParamKind::Text, ParamKind::Length, ParamKind::Area, ParamKind::Angle, ParamKind::Number, ParamKind::Integer, ParamKind::Bool]
    }

    pub fn label(self) -> (s: &'static str)
        ensures
            s@ == self.label_text(),
    {
        match self {
            ParamKind::Text => "Text",
            ParamKind::Length => "Length",
            ParamKind::Area => "Area",
            ParamKind::Angle => "Angle",
            ParamKind::Number => "Number",
            ParamKind::Integer => "Integer",
            ParamKind::Bool => "Yes/No",
        }
    }

    /// The variant whose label or name is `s`.
    pub fn parse(s: &str) -> (r: Option<ParamKind>)
        ensures
            r matches Some(x) ==> x.is_named(s@),
            r is None ==> forall|x: ParamKind| !x.is_named(s@),
    {
        if same(s, "Text") {
            return Some(ParamKind::Text);
        }
        if same(s, "Length") {
            return Some(ParamKind::Length);
        }
        if same(s, "Area") {
            return Some(ParamKind::Area);
        }
        if same(s, "Angle") {
            return Some(ParamKind::Angle);
        }
        if same(s, "Number") {
            return Some(ParamKind::Number);
        }
        if same(s, "Integer") {
            return Some(ParamKind::Integer);
        }
        if same(s, "Yes/No") || same(s, "Bool") {
            return Some(ParamKind::Bool);
        }
        assert forall|x: ParamKind| !x.is_named(s@) by {
            match x {
                ParamKind::Text => {},
                ParamKind::Length => {},
                ParamKind::Area => {},
                ParamKind::Angle => {},
                ParamKind::Number => {},
                ParamKind::Integer => {},
                ParamKind::Bool => {},
            }
        }
        None
    }
}

/// Whether a project parameter belongs to each instance or to its type.
#[derive(Debug, Clone, Copy, PartialEq, Eq, Structural)]
pub enum ParamScope {
    Instance,
    Type,
}

/// A user-defined project parameter, stored on the project information element.
#[derive(Debug)]
pub struct ParamDef {
    /// Stable key in element parameter maps.
    pub key: String,
    pub label: String,
    pub kind: ParamKind,
    pub scope: ParamScope,
    /// Instance categories it applies to (for type parameters, the instances' category).
    pub categories: Vec<Category>,
}

/// A parameter definition as the specifications see it.
pub struct ParamDefView {
    pub key: Seq<char>,
    pub label: Seq<char>,
    pub kind: ParamKind,
    pub scope: ParamScope,
    pub categories: Seq<Category>,
}

impl View for ParamDef {
    type V = ParamDefView;

    open spec fn view(&self) -> ParamDefView {
        ParamDefView {
            key: self.key@,
            label: self.label@,
            kind: self.kind,
            scope: self.scope,
            categories: self.categories@,
        }
    }
}

/// The views of a list of definitions.
pub open spec fn def_views(ds: Seq<ParamDef>) -> Seq<ParamDefView> {
    ds.map_values(|d: ParamDef| d@)
}

fn copy_categories(v: &Vec<Category>) -> (r: Vec<Category>)
    ensures
        r@ == v@,
{
    let mut r: Vec<Category> = Vec::new();
    let mut i: usize = 0;
    while i < v.len()
        invariant
            i <= v.len(),
            r@ == v@.take(i as int),
        decreases v.len() - i,
    {
        r.push(v[i]);
        assert(v@.take(i as int).push(v@[i as int]) =~= v@.take(i + 1));
        i += 1;
    }
    assert(v@.take(v.len() as int) =~= v@);
    r
}

impl ParamDef {
    /// A copy of the definition.
    pub fn duplicate(&self) -> (r: ParamDef)
        ensures
            r@ == self@,
    {
        ParamDef {
            key: owned(self.key.as_str()),
            label: owned(self.label.as_str()),
            kind: self.kind,
            scope: self.scope,
            categories: copy_categories(&self.categories),
        }
    }
}

// ---------------------------------------------------------------------------------------
// Keys
// ---------------------------------------------------------------------------------------

/// The key characters built from a label, before trailing underscores are dropped: each
/// ASCII letter or digit in lower case, and one underscore for each run of other characters
/// that follows something already kept.
pub open spec fn key_chars(s: Seq<char>) -> Seq<char>
    decreases s.len(),
{
    if s.len() == 0 {
        Seq::empty()
    } else {
        let k = key_chars(s.drop_last());
        let c = s.last();
        if is_alnum(c) {
            k.push(lower(c))
        } else if k.len() > 0 && k.last() != '_' {
            k.push('_')
        } else {
            k
        }
    }
}

/// `s` without its trailing `c` characters.
pub open spec fn trim_end(s: Seq<char>, c: char) -> Seq<char>
    decreases s.len(),
{
    if s.len() > 0 && s.last() == c {
        trim_end(s.drop_last(), c)
    } else {
        s
    }
}

/// The parameter key made from a label: its lower-case words joined by underscores.
pub open spec fn key_text(label: Seq<char>) -> Seq<char> {
    trim_end(key_chars(label), '_')
}

/// A parameter key made from a label: lowercase words joined by underscores.
pub fn key_for(label: &str) -> (key: String)
    ensures
        key@ == key_text(label@),
        is_key(key@),
        key_text(key@) == key@,
{
    proof {
        lemma_key_for_twice(label@);
    }
    let cs = chars_of(label);
    let mut out: Vec<char> = Vec::new();
    let mut i: usize = 0;
    while i < cs.len()
        invariant
            i <= cs.len(),
            cs@ == label@,
            out@ == key_chars(cs@.take(i as int)),
        decreases cs.len() - i,
    {
        let c = cs[i];
        assert(cs@.take(i + 1).drop_last() =~= cs@.take(i as int));
        if alnum(c) {
            out.push(ascii_lower(c));
        } else if out.len() > 0 && out[out.len() - 1] != '_' {
            out.push('_');
        }
        i += 1;
    }
    assert(cs@.take(cs.len() as int) =~= cs@);
    let ghost full = out@;
    while out.len() > 0 && out[out.len() - 1] == '_'
        invariant
            trim_end(out@, '_') == trim_end(full, '_'),
        decreases out.len(),
    {
        out.pop();
    }
    string_of(&out)
}

/// A character a key's words are made of: a lower-case ASCII letter or an ASCII digit.
pub open spec fn is_key_char(c: char) -> bool {
    is_digit(c) || ('a' <= c && c <= 'z')
}

/// `t` has the shape of a key: lower-case ASCII letters, digits and single underscores
/// between them.
pub open spec fn is_key(t: Seq<char>) -> bool {
    &&& forall|i: int| 0 <= i < t.len() ==> is_key_char(#[trigger] t[i]) || t[i] == '_'
    &&& t.len() > 0 ==> t[0] != '_' && t.last() != '_'
    &&& forall|i: int| 0 <= i < t.len() - 1 && #[trigger] t[i] == '_' ==> t[i + 1] != '_'
}

/// What `key_chars` builds has a key's shape, but for trailing underscores.
proof fn lemma_key_chars_shape(s: Seq<char>)
    ensures
        ({
            let k = key_chars(s);
            &&& forall|i: int| 0 <= i < k.len() ==> (is_alnum(#[trigger] k[i]) && lower(k[i]) == k[i]) || k[i] == '_'
            &&& k.len() > 0 ==> k[0] != '_'
            &&& forall|i: int| 0 <= i < k.len() - 1 && #[trigger] k[i] == '_' ==> k[i + 1] != '_'
        }),
    decreases s.len(),
{
    if s.len() > 0 {
        lemma_key_chars_shape(s.drop_last());
        let k0 = key_chars(s.drop_last());
        let c = s.last();
        if is_alnum(c) {
            assert(is_alnum(lower(c)) && lower(lower(c)) == lower(c));
            assert forall|i: int| 0 <= i < k0.push(lower(c)).len() - 1 && #[trigger] k0.push(lower(c))[i] == '_' implies k0.push(lower(c))[i + 1] != '_' by {
                if i < k0.len() - 1 {
                    assert(k0.push(lower(c))[i + 1] == k0[i + 1]);
                }
            }
        } else if k0.len() > 0 && k0.last() != '_' {
            assert forall|i: int| 0 <= i < k0.push('_').len() - 1 && #[trigger] k0.push('_')[i] == '_' implies k0.push('_')[i + 1] != '_' by {
                if i < k0.len() - 1 {
                    assert(k0.push('_')[i + 1] == k0[i + 1]);
                }
            }
        }
    }
}

/// Dropping trailing underscores from a string of that shape leaves a key.
proof fn lemma_trim_end_shape(k: Seq<char>)
    requires
        forall|i: int| 0 <= i < k.len() ==> (is_alnum(#[trigger] k[i]) && lower(k[i]) == k[i]) || k[i] == '_',
        k.len() > 0 ==> k[0] != '_',
        forall|i: int| 0 <= i < k.len() - 1 && #[trigger] k[i] == '_' ==> k[i + 1] != '_',
    ensures
        is_key(trim_end(k, '_')),
        trim_end(k, '_').len() <= k.len(),
        forall|i: int| 0 <= i < trim_end(k, '_').len() ==> trim_end(k, '_')[i] == k[i],
    decreases k.len(),
{
    if k.len() > 0 && k.last() == '_' {
        let k1 = k.drop_last();
        assert forall|i: int| 0 <= i < k1.len() - 1 && #[trigger] k1[i] == '_' implies k1[i + 1] != '_' by {
            assert(k[i] == '_');
        }
        lemma_trim_end_shape(k1);
    }
}

/// A key builds into itself.
proof fn lemma_key_fixed(t: Seq<char>)
    requires
        is_key(t),
    ensures
        key_text(t) == t,
{
    assert forall|i: int| 0 <= i <= t.len() implies key_chars(#[trigger] t.take(i)) == t.take(i) by {
        lemma_key_prefix(t, i);
    }
    assert(t.take(t.len() as int) =~= t);
}

proof fn lemma_key_prefix(t: Seq<char>, i: int)
    requires
        is_key(t),
        0 <= i <= t.len(),
    ensures
        key_chars(t.take(i)) == t.take(i),
    decreases i,
{
    if i > 0 {
        lemma_key_prefix(t, i - 1);
        assert(t.take(i).drop_last() =~= t.take(i - 1));
        assert(t.take(i).last() == t[i - 1]);
        if t[i - 1] == '_' {
            assert(i - 1 > 0);
            assert(t[i - 2] != '_') by {
                if t[i - 2] == '_' {
                    assert(t[i - 2 + 1] != '_');
                }
            }
            assert(t.take(i - 1).last() == t[i - 2]);
        }
        assert(t.take(i - 1).push(t[i - 1]) =~= t.take(i));
    }
}

/// A key made from a label is its own key: making keys a second time changes nothing.
pub proof fn lemma_key_for_twice(label: Seq<char>)
    ensures
        is_key(key_text(label)),
        key_text(key_text(label)) == key_text(label),
{
    lemma_key_chars_shape(label);
    lemma_trim_end_shape(key_chars(label));
    lemma_key_fixed(key_text(label));
}

/// The instance category a type element's instances belong to.
pub open spec fn instance_of_type(c: Category) -> Option<Category> {
    match c {
        Category::WallType => Some(Category::Wall),
        Category::DoorType => Some(Category::Door),
        Category::WindowType => Some(Category::Window),
        Category::FloorType => Some(Category::Floor),
        Category::CeilingType => Some(Category::Ceiling),
        Category::RoofType => Some(Category::Roof),
        _ => None,
    }
}

/// The instance category a type element's instances belong to.
pub fn instance_category_of_type(c: Category) -> (r: Option<Category>)
    ensures
        r == instance_of_type(c),
{
    match c {
        Category::WallType => Some(Category::Wall),
        Category::DoorType => Some(Category::Door),
        Category::WindowType => Some(Category::Window),
        Category::FloorType => Some(Category::Floor),
        Category::CeilingType => Some(Category::Ceiling),
        Category::RoofType => Some(Category::Roof),
        _ => None,
    }
}

// ---------------------------------------------------------------------------------------
// The project's definitions
// ---------------------------------------------------------------------------------------

/// Whether definition `d` applies to an element of category `cat`: an instance parameter
/// of its category, or a type parameter of its instances' category when it is a type.
pub open spec fn applies(d: ParamDefView, cat: Category) -> bool {
    match instance_of_type(cat) {
        Some(inst) => d.scope == ParamScope::Type && d.categories.contains(inst),
        None => d.scope == ParamScope::Instance && d.categories.contains(cat),
    }
}

/// The definitions among `ds` that apply to category `cat`, in order.
pub open spec fn applicable(ds: Seq<ParamDefView>, cat: Category) -> Seq<ParamDefView>
    decreases ds.len(),
{
    if ds.len() == 0 {
        Seq::empty()
    } else if applies(ds.last(), cat) {
        applicable(ds.drop_last(), cat).push(ds.last())
    } else {
        applicable(ds.drop_last(), cat)
    }
}

fn has_category(cs: &Vec<Category>, c: Category) -> (r: bool)
    ensures
        r == cs@.contains(c),
{
    let mut i: usize = 0;
    while i < cs.len()
        invariant
            i <= cs.len(),
            forall|j: int| 0 <= j < i ==> cs@[j] != c,
        decreases cs.len() - i,
    {
        if cs[i] == c {
            assert(cs@[i as int] == c);
            return true;
        }
        i += 1;
    }
    false
}

/// Definitions that apply to an element with category `cat`: instance parameters of its
/// category, or type parameters when it is a type.
pub fn defs_for(defs: &Vec<ParamDef>, cat: Category) -> (r: Vec<ParamDef>)
    ensures
        def_views(r@) == applicable(def_views(defs@), cat),
{
    let (want, scope) = match instance_category_of_type(cat) {
        Some(inst) => (inst, ParamScope::Type),
        None => (cat, ParamScope::Instance),
    };
    let mut r: Vec<ParamDef> = Vec::new();
    let mut i: usize = 0;
    while i < defs.len()
        invariant
            i <= defs.len(),
            instance_of_type(cat) matches Some(inst) ==> want == inst && scope == ParamScope::Type,
            instance_of_type(cat) is None ==> want == cat && scope == ParamScope::Instance,
            def_views(r@) == applicable(def_views(defs@.take(i as int)), cat),
        decreases defs.len() - i,
    {
        let d = &defs[i];
        assert(def_views(defs@.take(i + 1)).drop_last() =~= def_views(defs@.take(i as int)));
        assert(def_views(defs@.take(i + 1)).last() == d@);
        if d.scope == scope && has_category(&d.categories, want) {
            r.push(d.duplicate());
            assert(def_views(r@) =~= applicable(def_views(defs@.take(i as int)), cat).push(d@));
        }
        i += 1;
    }
    assert(defs@.take(defs.len() as int) =~= defs@);
    r
}

/// Whether some definition among `ds` has key `key`.
pub open spec fn key_taken(ds: Seq<ParamDefView>, key: Seq<char>) -> bool {
    exists|i: int| 0 <= i < ds.len() && (#[trigger] ds[i]).key == key
}

fn key_in_use(defs: &Vec<ParamDef>, key: &Vec<char>) -> (r: bool)
    ensures
        r == key_taken(def_views(defs@), key@),
{
    let mut i: usize = 0;
    while i < defs.len()
        invariant
            i <= defs.len(),
            forall|j: int| 0 <= j < i ==> (#[trigger] def_views(defs@)[j]).key != key@,
        decreases defs.len() - i,
    {
        let k = chars_of(defs[i].key.as_str());
        if same_chars(&k, key) {
            assert(def_views(defs@)[i as int].key == key@);
            return true;
        }
        i += 1;
    }
    false
}

/// The message refusing a second parameter named `label`.
pub open spec fn duplicate_message(label: Seq<char>) -> Seq<char> {
    "a parameter named \""@ + label + "\" already exists"@
}

/// Adds a project parameter to the project's definitions. Returns its key, made from the
/// trimmed label. Refused when the label gives no key, when no category is picked and
/// when a definition with that key exists; the definitions are then unchanged.
pub fn add_def(
    defs: &mut Vec<ParamDef>,
    label: &str,
    kind: ParamKind,
    scope: ParamScope,
    categories: Vec<Category>,
) -> (r: Result<String, CoreError>)
    ensures
        ({
            let l = trim_of(label@);
            let k = key_text(l);
            &&& k.len() == 0 ==> (r matches Err(CoreError::Invalid(m)) && m@ == "name the parameter"@)
            &&& k.len() > 0 && categories@.len() == 0 ==> (r matches Err(CoreError::Invalid(m))
                && m@ == "pick at least one category"@)
            &&& k.len() > 0 && categories@.len() > 0 && key_taken(def_views(old(defs)@), k)
                ==> (r matches Err(CoreError::Invalid(m)) && m@ == duplicate_message(l))
            &&& r is Err ==> final(defs)@ == old(defs)@
            &&& r is Ok <==> (k.len() > 0 && categories@.len() > 0 && !key_taken(def_views(old(defs)@), k))
            &&& r matches Ok(key) ==> key@ == k && def_views(final(defs)@) == def_views(old(defs)@).push(
                ParamDefView { key: k, label: l, kind, scope, categories: categories@ },
            )
            &&& (forall|i: int| 0 <= i < label@.len() ==> is_white(#[trigger] label@[i]))
                ==> (r matches Err(CoreError::Invalid(m)) && m@ == "name the parameter"@)
        }),
{
    proof {
        if forall|i: int| 0 <= i < label@.len() ==> is_white(#[trigger] label@[i]) {
            lemma_blank_trims_to_nothing(label@);
        }
    }
    let trimmed_label = trimmed(label);
    let label = trimmed_label.as_str();
    let key = key_for(label);
    let kc = chars_of(key.as_str());
    if kc.len() == 0 {
        return Err(CoreError::Invalid(owned("name the parameter")));
    }
    if categories.len() == 0 {
        return Err(CoreError::Invalid(owned("pick at least one category")));
    }
    if key_in_use(defs, &kc) {
        let mut m: Vec<char> = Vec::new();
        append(&mut m, "a parameter named \"");
        append(&mut m, label);
        append(&mut m, "\" already exists");
        return Err(CoreError::Invalid(string_of(&m)));
    }
    let def = ParamDef {
        key: owned(key.as_str()),
        label: owned(label),
        kind,
        scope,
        categories,
    };
    let ghost d0 = def_views(defs@);
    defs.push(def);
    assert(def_views(defs@) =~= d0.push(defs@.last()@));
    Ok(key)
}

/// The definitions among `ds` whose key is not `key`, in order.
pub open spec fn without_key(ds: Seq<ParamDefView>, key: Seq<char>) -> Seq<ParamDefView>
    decreases ds.len(),
{
    if ds.len() == 0 {
        Seq::empty()
    } else if ds.last().key == key {
        without_key(ds.drop_last(), key)
    } else {
        without_key(ds.drop_last(), key).push(ds.last())
    }
}

/// Removes a project parameter's definition (its values on elements are cleared by the
/// caller, in the same transaction).
pub fn remove_def(defs: &mut Vec<ParamDef>, key: &str)
    ensures
        def_views(final(defs)@) == without_key(def_views(old(defs)@), key@),
{
    let kc = chars_of(key);
    let mut kept: Vec<ParamDef> = Vec::new();
    let mut i: usize = 0;
    while i < defs.len()
        invariant
            i <= defs.len(),
            kc@ == key@,
            def_views(kept@) == without_key(def_views(defs@.take(i as int)), key@),
        decreases defs.len() - i,
    {
        let d = &defs[i];
        assert(def_views(defs@.take(i + 1)).drop_last() =~= def_views(defs@.take(i as int)));
        assert(def_views(defs@.take(i + 1)).last() == d@);
        let dk = chars_of(d.key.as_str());
        if !same_chars(&dk, &kc) {
            kept.push(d.duplicate());
            assert(def_views(kept@) =~= without_key(def_views(defs@.take(i as int)), key@).push(d@));
        }
        i += 1;
    }
    assert(defs@.take(defs.len() as int) =~= defs@);
    *defs = kept;
}

/// No two parameter kinds share a label or a name, so parsing a label or a name gives back
/// the kind it belongs to.
pub proof fn lemma_param_kind_names(x: ParamKind, y: ParamKind)
    ensures
        y.is_named(x.label_text()) ==> y == x,
        y.is_named(x.debug_text()) ==> y == x,
{
    reveal_strlit("Angle");
    reveal_strlit("Area");
    reveal_strlit("Bool");
    reveal_strlit("Integer");
    reveal_strlit("Length");
    reveal_strlit("Number");
    reveal_strlit("Text");
    reveal_strlit("Yes/No");
    assert("Angle"@.len() != "Area"@.len());
    assert("Angle"@.len() != "Bool"@.len());
    assert("Angle"@.len() != "Integer"@.len());
    assert("Angle"@.len() != "Length"@.len());
    assert("Angle"@.len() != "Number"@.len());
    assert("Angle"@.len() != "Text"@.len());
    assert("Angle"@.len() != "Yes/No"@.len());
    assert("Area"@[0] != "Bool"@[0]);
    assert("Area"@.len() != "Integer"@.len());
    assert("Area"@.len() != "Length"@.len());
    assert("Area"@.len() != "Number"@.len());
    assert("Area"@[0] != "Text"@[0]);
    assert("Area"@.len() != "Yes/No"@.len());
    assert("Bool"@.len() != "Integer"@.len());
    assert("Bool"@.len() != "Length"@.len());
    assert("Bool"@.len() != "Number"@.len());
    assert("Bool"@[0] != "Text"@[0]);
    assert("Integer"@.len() != "Length"@.len());
    assert("Integer"@.len() != "Number"@.len());
    assert("Integer"@.len() != "Text"@.len());
    assert("Integer"@.len() != "Yes/No"@.len());
    assert("Length"@[0] != "Number"@[0]);
    assert("Length"@.len() != "Text"@.len());
    assert("Length"@[0] != "Yes/No"@[0]);
    assert("Number"@.len() != "Text"@.len());
    assert("Number"@[0] != "Yes/No"@[0]);
    assert("Text"@.len() != "Yes/No"@.len());
    match x {
        ParamKind::Text => {},
        ParamKind::Length => {},
        ParamKind::Area => {},
        ParamKind::Angle => {},
        ParamKind::Number => {},
        ParamKind::Integer => {},
        ParamKind::Bool => {},
    }
}

} // verus!

use studio_core::compound::function_options;
use studio_core::detail::{compass_name, directions, marker_views};
use studio_core::element::{Compass, ElementId};
use studio_core::generate::{BuildReport, Glazing, MaterialSpec, RoofKind, RoomKind, Structure};
use studio_core::plans::PlanReport;
use studio_core::sun::day_of_year;
use studio_core::sketch::{end_faults, walk_loops, DrawTool, SketchError, SketchKind, WallFace};

#[test]
fn room_kinds_decide_doors_and_windows() {
    assert!(RoomKind::Corridor.circulation());
    assert!(!RoomKind::Bedroom.circulation());
    assert!(RoomKind::Closet.leaf());
    assert!(RoomKind::Kitchen.open());
    assert!(!RoomKind::Bedroom.open());
    assert_eq!(RoomKind::Bedroom.windows(), Some(Glazing::Punched));
    assert_eq!(RoomKind::Unit.windows(), Some(Glazing::Large));
    assert_eq!(RoomKind::Retail.windows(), Some(Glazing::Storefront));
    assert_eq!(RoomKind::Stair.windows(), None);
    let all = [
        RoomKind::Living,
        RoomKind::Dining,
        RoomKind::Kitchen,
        RoomKind::Bedroom,
        RoomKind::Bathroom,
        RoomKind::Closet,
        RoomKind::Laundry,
        RoomKind::Garage,
        RoomKind::Corridor,
        RoomKind::Stair,
        RoomKind::Entry,
        RoomKind::Lobby,
        RoomKind::Office,
        RoomKind::Unit,
        RoomKind::GuestRoom,
        RoomKind::Retail,
        RoomKind::Amenity,
        RoomKind::Mechanical,
        RoomKind::Storage,
        RoomKind::Other,
    ];
    for k in all {
        assert!(!(k.leaf() && k.circulation()));
    }
}

#[test]
fn building_defaults() {
    assert_eq!(RoofKind::default(), RoofKind::Hip);
    assert_eq!(Structure::default(), Structure::Wood);
    let m = MaterialSpec::default();
    assert!(m.exterior_walls.is_none() && m.interior_walls.is_none() && m.floors.is_none() && m.roof.is_none());
    let r = BuildReport::default();
    assert!(r.name.is_empty() && r.levels == 0 && r.materials == 0 && r.warnings.is_empty());
    let p = PlanReport::default();
    assert!(p.name.is_empty() && p.walls == 0 && p.roofs == 0 && p.warnings.is_empty());
}

#[test]
fn draw_tools_need_two_or_three_clicks() {
    assert_eq!(DrawTool::Line.points(), 2);
    assert_eq!(DrawTool::Circle.points(), 2);
    assert_eq!(DrawTool::StartEndRadiusArc.points(), 3);
    assert_eq!(DrawTool::CenterEndsArc.points(), 3);
    let e = SketchError::new("Lines must be in closed loops.", vec![2, 5]);
    assert_eq!(e.message, "Lines must be in closed loops.");
    assert_eq!(e.bad, [2, 5]);
    assert_ne!(SketchKind::Floor, SketchKind::Ceiling);
    assert_ne!(WallFace::Exterior, WallFace::Centerline);
}

#[test]
fn marker_directions() {
    assert_eq!(directions(), [Compass::North, Compass::East, Compass::South, Compass::West]);
    let names: Vec<&str> = directions().into_iter().map(compass_name).collect();
    assert_eq!(names, ["North", "East", "South", "West"]);
}

#[test]
fn layer_function_options() {
    let o = function_options();
    assert_eq!(o.len(), 6);
    assert_eq!((o[5].id.as_str(), o[5].label.as_str()), ("Air Gap", "Air Gap"));
    assert_eq!(o[0].id, "Structure");
}

#[test]
fn marker_views_come_north_east_south_west() {
    let v = vec![
        (Compass::West, ElementId(1)),
        (Compass::North, ElementId(2)),
        (Compass::South, ElementId(3)),
        (Compass::North, ElementId(4)),
        (Compass::East, ElementId(5)),
    ];
    assert_eq!(
        marker_views(&v),
        vec![
            (Compass::North, ElementId(2)),
            (Compass::North, ElementId(4)),
            (Compass::East, ElementId(5)),
            (Compass::South, ElementId(3)),
            (Compass::West, ElementId(1)),
        ]
    );
    assert_eq!(marker_views(&vec![]), vec![]);
}

#[test]
fn days_of_the_year() {
    assert_eq!(day_of_year(1, 1), 1);
    assert_eq!(day_of_year(3, 1), 60);
    assert_eq!(day_of_year(12, 31), 365);
    assert_eq!(day_of_year(0, 0), 1);
    assert_eq!(day_of_year(13, 40), 365);
    assert_eq!(day_of_year(6, 21), 172);
}

#[test]
fn every_end_must_meet_exactly_one_other() {
    assert!(end_faults(&vec![(0, 1), (0, 1), (1, 1), (1, 1)]).is_ok());
    assert!(end_faults(&vec![]).is_ok());
    let e = end_faults(&vec![(0, 0), (0, 0), (1, 2), (1, 1), (2, 0), (2, 1), (4, 2), (4, 0)]).unwrap_err();
    assert_eq!(e.message, "Lines must be in closed loops. The highlighted lines are open on one end.");
    assert_eq!(e.bad, vec![0, 2, 4]);
    let e = end_faults(&vec![(0, 1), (0, 2), (1, 2), (1, 1), (3, 1), (3, 3)]).unwrap_err();
    assert_eq!(e.message, "Lines must not intersect. More than two lines meet at the highlighted ends.");
    assert_eq!(e.bad, vec![0, 1, 3]);
}

fn near_table(points: &[char]) -> Vec<Vec<bool>> {
    points.iter().map(|p| points.iter().map(|q| p == q).collect()).collect()
}

#[test]
fn curves_are_walked_head_to_tail_into_loops() {
    // A square whose second side is drawn backwards, then a circle.
    let near = near_table(&['A', 'B', 'C', 'B', 'C', 'D', 'D', 'A', 'E', 'E']);
    let circle = vec![false, false, false, false, true];
    assert_eq!(
        walk_loops(&near, &circle),
        vec![vec![(0, false), (1, true), (2, false), (3, false)], vec![(4, false)]]
    );
    // Two triangles, their sides interleaved.
    let near = near_table(&['A', 'B', 'P', 'Q', 'B', 'C', 'Q', 'R', 'C', 'A', 'R', 'P']);
    assert_eq!(
        walk_loops(&near, &vec![false; 6]),
        vec![vec![(0, false), (2, false), (4, false)], vec![(1, false), (3, false), (5, false)]]
    );
    assert_eq!(walk_loops(&vec![], &vec![]), Vec::<Vec<(usize, bool)>>::new());
}

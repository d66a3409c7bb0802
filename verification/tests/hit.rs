use skean_raytracer::hit::{first_flagged, Nearest, World};

/// A wall across the ray at a fixed distance.
#[derive(Clone, Copy, Debug, PartialEq)]
struct Wall {
    at: u64,
    name: char,
}

fn cast(wall: &Wall, t_min: u64, t_max: u64) -> Option<(u64, char)> {
    if t_min <= wall.at && wall.at <= t_max {
        Some((wall.at, wall.name))
    } else {
        None
    }
}

fn world_of(walls: &[Wall]) -> World<Wall> {
    let mut world = World::new();
    for wall in walls {
        world.push(*wall);
    }
    world
}

/// The nearest of the hits that the walls give by themselves, the later one
/// of two that lie equally near.
fn nearest_by_itself(walls: &[Wall], t_min: u64, t_max: u64) -> Option<char> {
    let mut best: Option<(u64, char)> = None;
    for wall in walls {
        if let Some(found) = cast(wall, t_min, t_max) {
            match best {
                Some(b) if b.0 < found.0 => {}
                _ => best = Some(found),
            }
        }
    }
    best.map(|b| b.1)
}

#[test]
fn empty_world_is_never_hit() {
    let world: World<Wall> = World::new();
    assert_eq!(world.len(), 0);
    assert_eq!(world.hit(0, u64::MAX, cast), None);
}

#[test]
fn world_of_one_shape_answers_as_the_shape() {
    let world = world_of(&[Wall { at: 10, name: 'a' }]);
    assert_eq!(world.len(), 1);
    assert_eq!(world.hit(0, 100, cast), Some('a'));
    assert_eq!(world.hit(10, 10, cast), Some('a'));
    assert_eq!(world.hit(11, 100, cast), None);
    assert_eq!(world.hit(0, 9, cast), None);
}

#[test]
fn world_answers_with_the_nearest_hit_not_the_first() {
    let world = world_of(&[
        Wall { at: 30, name: 'a' },
        Wall { at: 10, name: 'b' },
        Wall { at: 20, name: 'c' },
    ]);
    assert_eq!(world.hit(0, 100, cast), Some('b'));
    assert_eq!(world.hit(11, 100, cast), Some('c'));
    assert_eq!(world.hit(21, 100, cast), Some('a'));
    assert_eq!(world.hit(31, 100, cast), None);
    assert_eq!(world.hit(0, 9, cast), None);
}

#[test]
fn of_two_equally_near_hits_the_later_shape_wins() {
    let world = world_of(&[
        Wall { at: 10, name: 'a' },
        Wall { at: 10, name: 'b' },
        Wall { at: 15, name: 'c' },
    ]);
    assert_eq!(world.hit(0, 100, cast), Some('b'));
}

#[test]
fn world_hit_is_the_nearest_of_the_member_hits() {
    let walls = [
        Wall { at: 7, name: 'a' },
        Wall { at: 3, name: 'b' },
        Wall { at: 9, name: 'c' },
        Wall { at: 3, name: 'd' },
        Wall { at: 12, name: 'e' },
        Wall { at: 5, name: 'f' },
    ];
    for n in 0..=walls.len() {
        let world = world_of(&walls[..n]);
        for t_min in 0..14 {
            for t_max in 0..14 {
                assert_eq!(world.hit(t_min, t_max, cast), nearest_by_itself(&walls[..n], t_min, t_max));
            }
        }
    }
}

#[test]
fn every_shape_is_asked_once_with_a_shrinking_bound() {
    let world = world_of(&[
        Wall { at: 30, name: 'a' },
        Wall { at: 50, name: 'b' },
        Wall { at: 20, name: 'c' },
        Wall { at: 25, name: 'd' },
    ]);
    let asked = std::cell::RefCell::new(Vec::new());
    let found = world.hit(1, 100, |wall: &Wall, t_min: u64, t_max: u64| {
        asked.borrow_mut().push((wall.name, t_min, t_max));
        cast(wall, t_min, t_max)
    });
    assert_eq!(found, Some('c'));
    assert_eq!(asked.into_inner(), vec![('a', 1, 100), ('b', 1, 30), ('c', 1, 30), ('d', 1, 20)]);
}

#[test]
fn search_keeps_the_last_hit_and_its_distance_as_bound() {
    let mut search: Nearest<u64, char> = Nearest::new(100);
    assert_eq!(search.bound(), 100);
    search.observe(None);
    assert_eq!(search.bound(), 100);
    search.observe(Some((40, 'a')));
    assert_eq!(search.bound(), 40);
    search.observe(None);
    assert_eq!(search.bound(), 40);
    search.observe(Some((15, 'b')));
    assert_eq!(search.bound(), 15);
    assert_eq!(search.finish(), Some('b'));
}

#[test]
fn search_without_a_hit_finds_nothing() {
    let mut search: Nearest<u64, char> = Nearest::new(7);
    search.observe(None);
    assert_eq!(search.bound(), 7);
    assert_eq!(search.finish(), None);
}

/// A plane across the z axis, with distances measured in floating point.
struct Screen {
    z: f64,
}

fn cast_at(origin: f64, direction: f64) -> impl Fn(&Screen, f64, f64) -> Option<(f64, f64)> {
    move |screen: &Screen, t_min: f64, t_max: f64| {
        if direction == 0.0 {
            return None;
        }
        let t = (screen.z - origin) / direction;
        if t < t_min || t > t_max || t.is_nan() {
            None
        } else {
            Some((t, screen.z))
        }
    }
}

#[test]
fn world_with_floating_point_distances() {
    let mut world = World::new();
    world.push(Screen { z: -3.0 });
    world.push(Screen { z: -1.0 });
    world.push(Screen { z: 2.0 });
    world.push(Screen { z: -2.0 });
    assert_eq!(world.hit(0.001, f64::INFINITY, cast_at(0.0, -1.0)), Some(-1.0));
    assert_eq!(world.hit(0.001, f64::INFINITY, cast_at(0.0, 1.0)), Some(2.0));
    assert_eq!(world.hit(1.5, f64::INFINITY, cast_at(0.0, -1.0)), Some(-2.0));
    assert_eq!(world.hit(0.001, f64::INFINITY, cast_at(0.0, 0.0)), None);
    assert_eq!(world.hit(0.001, f64::INFINITY, cast_at(5.0, 1.0)), None);
}

#[test]
fn first_flagged_candidate_is_picked() {
    assert_eq!(first_flagged::<u8>(&[]), None);
    assert_eq!(first_flagged(&[(true, 'a')]), Some('a'));
    assert_eq!(first_flagged(&[(false, 'a')]), None);
    assert_eq!(first_flagged(&[(true, 'a'), (true, 'b')]), Some('a'));
    assert_eq!(first_flagged(&[(false, 'a'), (true, 'b')]), Some('b'));
    assert_eq!(first_flagged(&[(false, 'a'), (false, 'b')]), None);
    assert_eq!(first_flagged(&[(false, 1), (false, 2), (true, 3), (true, 4)]), Some(3));
}

/// A ball across the ray: the ray enters at `near` and leaves at `far`.
struct Ball {
    near: u64,
    far: u64,
}

fn cast_ball(ball: &Ball, t_min: u64, t_max: u64) -> Option<(u64, u64)> {
    let inside = |t: u64| t_min <= t && t <= t_max;
    first_flagged(&[(inside(ball.near), ball.near), (inside(ball.far), ball.far)]).map(|t| (t, t))
}

#[test]
fn ball_answers_with_its_least_crossing_between_the_bounds() {
    let ball = Ball { near: 10, far: 20 };
    assert_eq!(cast_ball(&ball, 0, 100), Some((10, 10)));
    assert_eq!(cast_ball(&ball, 10, 10), Some((10, 10)));
    assert_eq!(cast_ball(&ball, 11, 100), Some((20, 20)));
    assert_eq!(cast_ball(&ball, 11, 19), None);
    assert_eq!(cast_ball(&ball, 0, 9), None);
    assert_eq!(cast_ball(&ball, 21, 100), None);
}

#[test]
fn world_of_balls_is_hit_where_the_ray_first_crosses_one() {
    let mut world = World::new();
    world.push(Ball { near: 30, far: 40 });
    world.push(Ball { near: 5, far: 35 });
    world.push(Ball { near: 12, far: 14 });
    assert_eq!(world.hit(0, 100, cast_ball), Some(5));
    assert_eq!(world.hit(6, 100, cast_ball), Some(12));
    assert_eq!(world.hit(13, 100, cast_ball), Some(14));
    assert_eq!(world.hit(15, 100, cast_ball), Some(30));
    assert_eq!(world.hit(31, 100, cast_ball), Some(35));
    assert_eq!(world.hit(36, 100, cast_ball), Some(40));
    assert_eq!(world.hit(41, 100, cast_ball), None);
}

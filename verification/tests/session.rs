use bevy_dice::events::{
    ConfigError, Contact, DicePluginSettings, DiceRollStartEvent, DieReading, RollPlan,
};
use bevy_dice::face_map::{Face, FaceMap};
use bevy_dice::geometry::{DieOrientation, Direction};
use bevy_dice::session::{find_reading, RollSession};
use bevy_dice::state::{DEFAULT_DROP_HIGH, DEFAULT_DROP_LOW};
use bevy_dice::toss::FULL_TURN;

fn session_over(fields: usize) -> RollSession {
    let settings = DicePluginSettings { render_size: (640, 720), number_of_fields: fields };
    RollSession::new(&settings, FaceMap::standard_cube())
}

fn request(counts: &[usize]) -> DiceRollStartEvent {
    DiceRollStartEvent { num_dice: counts.to_vec() }
}

/// An orientation of the ordinary die that shows `face`.
fn showing(face: usize) -> DieOrientation {
    let (x, y, z, w) = match face {
        1 => (0, 0, 0, 1),
        2 => (0, 0, 1, 1),
        3 => (1, 0, 0, 1),
        4 => (-1, 0, 0, 1),
        5 => (0, 0, -1, 1),
        6 => (1, 0, 0, 0),
        _ => (0, 0, 0, 0),
    };
    DieOrientation { x, y, z, w }
}

fn reading(die: u64, face: usize) -> DieReading {
    DieReading { die, orientation: showing(face) }
}

fn started(counts: &[usize], first_die: u64) -> RollSession {
    let mut session = session_over(counts.len());
    let plan = session.start(&request(counts)).unwrap();
    let mut die = first_die;
    for command in plan.spawn.iter() {
        assert!(session.track(command.field, die));
        die += 1;
    }
    session
}

#[test]
fn a_new_session_is_idle() {
    let session = session_over(2);
    assert!(!session.is_rolling());
    assert_eq!(session.field_count(), 2);
    assert_eq!(session.previous().values, vec![Vec::<usize>::new(), Vec::new()]);
    assert_eq!(session.dice_in_field(0), Vec::<u64>::new());
    assert_eq!(session.dice_in_field(1), Vec::<u64>::new());
    assert_eq!(session.dice_in_field(2), Vec::<u64>::new());
    assert_eq!(session.face_map().len(), 6);
}

#[test]
fn an_idle_session_lets_notices_pass() {
    let mut session = session_over(1);
    assert!(!session.is_tracked(7));
    assert!(session.settle(7, &vec![reading(7, 3)]).is_none());
    assert!(session.settle_all(&vec![7, 8], &vec![reading(7, 3)]).is_none());
    assert_eq!(session.previous().values, vec![Vec::<usize>::new()]);
    assert!(!session.is_rolling());
    assert!(!session.track(0, 7));
    assert!(session.settled_dice(&vec![Contact { first: 7, second: 8 }]).is_empty());
}

#[test]
fn a_request_is_answered_with_a_plan() {
    let mut session = session_over(3);
    let plan = session.start(&request(&[2, 0, 3])).unwrap();
    assert!(plan.despawn.is_empty());
    let fields: Vec<usize> = plan.spawn.iter().map(|command| command.field).collect();
    assert_eq!(fields, vec![0, 0, 2, 2, 2]);
    for command in plan.spawn.iter() {
        assert!(command.toss.turn_x < FULL_TURN);
        assert!(command.toss.turn_y < FULL_TURN);
        assert!(command.toss.turn_z < FULL_TURN);
        assert!(DEFAULT_DROP_LOW <= command.toss.height);
        assert!(command.toss.height < DEFAULT_DROP_HIGH);
    }
    assert!(session.is_rolling());
    let empty: Vec<Vec<usize>> = vec![Vec::new(), Vec::new(), Vec::new()];
    assert_eq!(session.previous().values, empty);
}

#[test]
fn default_drop_heights_are_two_to_five_units() {
    assert_eq!(DEFAULT_DROP_LOW, 2_000);
    assert_eq!(DEFAULT_DROP_HIGH, 5_000);
}

#[test]
fn drop_heights_can_be_set() {
    let mut session = session_over(1);
    assert!(session.set_drop_heights(10, 11));
    let plan = session.start(&request(&[4])).unwrap();
    assert_eq!(plan.spawn.len(), 4);
    for command in plan.spawn.iter() {
        assert_eq!(command.toss.height, 10);
    }
    assert!(!session.set_drop_heights(11, 11));
    assert!(!session.set_drop_heights(12, 3));
    let again = session.start(&request(&[3])).unwrap();
    for command in again.spawn.iter() {
        assert_eq!(command.toss.height, 10);
    }
}

#[test]
fn a_request_for_another_number_of_fields_is_refused() {
    let mut session = session_over(2);
    assert_eq!(
        session.start(&request(&[1])),
        Err(ConfigError::FieldCountMismatch { expected: 2, found: 1 })
    );
    assert_eq!(
        session.start(&request(&[1, 2, 3])),
        Err(ConfigError::FieldCountMismatch { expected: 2, found: 3 })
    );
    assert!(!session.is_rolling());
}

#[test]
fn a_refused_request_changes_nothing() {
    let mut session = started(&[2], 10);
    let readings = vec![reading(10, 2), reading(11, 5)];
    assert_eq!(session.settle(10, &readings).unwrap().values, vec![vec![2, 5]]);
    assert!(session.start(&request(&[1, 1])).is_err());
    assert!(session.is_rolling());
    assert!(session.is_tracked(10));
    assert!(session.is_tracked(11));
    assert_eq!(session.dice_in_field(0), vec![10, 11]);
    assert_eq!(session.previous().values, vec![vec![2, 5]]);
    assert!(session.settle(11, &readings).is_none());
}

#[test]
fn a_request_of_signed_counts_is_checked_first() {
    let mut session = session_over(2);
    let refused = DiceRollStartEvent::from_counts(&vec![1, -1]);
    assert_eq!(refused, Err(ConfigError::NegativeCount { field: 1 }));
    assert!(!session.is_rolling());
    let accepted = DiceRollStartEvent::from_counts(&vec![1, 1]).unwrap();
    assert!(session.start(&accepted).is_ok());
}

#[test]
fn dice_enter_the_roll_in_spawn_order() {
    let mut session = session_over(2);
    session.start(&request(&[2, 1])).unwrap();
    assert!(session.track(0, 40));
    assert!(session.track(1, 7));
    assert!(session.track(0, 12));
    assert_eq!(session.dice_in_field(0), vec![40, 12]);
    assert_eq!(session.dice_in_field(1), vec![7]);
    assert!(session.is_tracked(40) && session.is_tracked(7) && session.is_tracked(12));
    assert!(!session.is_tracked(13));
}

#[test]
fn a_die_is_turned_away_where_it_does_not_belong() {
    let mut session = session_over(2);
    session.start(&request(&[1, 1])).unwrap();
    // No such field.
    assert!(!session.track(2, 1));
    assert!(session.track(0, 1));
    // The field is full.
    assert!(!session.track(0, 2));
    // The name is taken.
    assert!(!session.track(1, 1));
    assert!(session.track(1, 2));
    assert_eq!(session.dice_in_field(0), vec![1]);
    assert_eq!(session.dice_in_field(1), vec![2]);
}

#[test]
fn two_dice_showing_two_and_five_are_reported_once() {
    let mut session = started(&[2], 100);
    assert_eq!(session.previous().values, vec![Vec::<usize>::new()]);
    let readings = vec![reading(100, 2), reading(101, 5)];
    let first = session.settle(100, &readings);
    let second = session.settle(101, &readings);
    assert_eq!(first.unwrap().values, vec![vec![2, 5]]);
    assert!(second.is_none());
    assert_eq!(session.previous().values, vec![vec![2, 5]]);
}

#[test]
fn a_third_notice_with_the_same_faces_reports_nothing() {
    let mut session = started(&[2], 100);
    let readings = vec![reading(100, 2), reading(101, 5)];
    assert!(session.settle(100, &readings).is_some());
    assert!(session.settle(101, &readings).is_none());
    let again = vec![reading(101, 5), reading(100, 2)];
    assert!(session.settle(100, &again).is_none());
    assert_eq!(session.previous().values, vec![vec![2, 5]]);
}

#[test]
fn one_die_showing_three_twice_is_reported_once() {
    let mut session = started(&[1], 1);
    assert_eq!(session.settle(1, &vec![reading(1, 3)]).unwrap().values, vec![vec![3]]);
    assert!(session.settle(1, &vec![reading(1, 3)]).is_none());
    // Another orientation that shows the same face is no news either.
    let tilted = DieReading { die: 1, orientation: DieOrientation { x: 9, y: 1, z: 0, w: 10 } };
    assert!(session.settle(1, &vec![tilted]).is_none());
    // A new face is.
    assert_eq!(session.settle(1, &vec![reading(1, 4)]).unwrap().values, vec![vec![4]]);
    assert_eq!(session.settle(1, &vec![reading(1, 3)]).unwrap().values, vec![vec![3]]);
}

#[test]
fn reports_have_the_shape_of_the_request() {
    let mut session = session_over(2);
    let plan = session.start(&request(&[2, 3])).unwrap();
    assert_eq!(plan.spawn.len(), 5);
    let mut readings: Vec<DieReading> = Vec::new();
    let mut die: u64 = 50;
    for command in plan.spawn.iter() {
        assert!(session.track(command.field, die));
        readings.push(reading(die, 1 + (die % 6) as usize));
        let report = session.settle(die, &readings).unwrap();
        assert_eq!(report.values.len(), 2);
        assert!(report.values[0].len() <= 2);
        assert!(report.values[1].len() <= 3);
        die += 1;
    }
    let last = session.previous();
    assert_eq!(last.values.len(), 2);
    assert_eq!(last.values[0].len(), 2);
    assert_eq!(last.values[1].len(), 3);
    assert_eq!(last.values, vec![vec![3, 4], vec![5, 6, 1]]);
    let turned = vec![
        reading(50, 6),
        reading(51, 6),
        reading(52, 6),
        reading(53, 6),
        reading(54, 6),
    ];
    let report = session.settle(52, &turned).unwrap();
    assert_eq!(report.values, vec![vec![6, 6], vec![6, 6, 6]]);
}

#[test]
fn a_field_without_dice_is_reported_as_an_empty_list() {
    let mut session = started(&[0, 1], 5);
    let report = session.settle(5, &vec![reading(5, 4)]).unwrap();
    assert_eq!(report.values, vec![Vec::<usize>::new(), vec![4]]);
}

#[test]
fn an_edge_balanced_die_is_reported_as_zero() {
    let mut session = started(&[2], 1);
    let readings = vec![reading(1, 0), reading(2, 6)];
    assert_eq!(session.settle(2, &readings).unwrap().values, vec![vec![0, 6]]);
}

#[test]
fn a_die_without_a_reading_is_left_out() {
    let mut session = started(&[3], 1);
    let readings = vec![reading(3, 2), reading(1, 5)];
    assert_eq!(session.outcome(&readings).values, vec![vec![5, 2]]);
    assert_eq!(session.settle(1, &readings).unwrap().values, vec![vec![5, 2]]);
}

#[test]
fn the_first_reading_of_a_die_counts() {
    let readings = vec![reading(9, 4), reading(3, 2), reading(3, 6), reading(9, 1)];
    assert_eq!(find_reading(&readings, 3), Some(showing(2)));
    assert_eq!(find_reading(&readings, 9), Some(showing(4)));
    assert_eq!(find_reading(&readings, 4), None);
    assert_eq!(find_reading(&Vec::new(), 3), None);
    let mut session = started(&[1], 3);
    assert_eq!(session.settle(3, &readings).unwrap().values, vec![vec![2]]);
}

#[test]
fn readings_of_other_bodies_are_passed_over() {
    let mut session = started(&[1, 1], 20);
    let readings = vec![reading(99, 6), reading(21, 3), reading(7, 2), reading(20, 1)];
    assert_eq!(session.settle(20, &readings).unwrap().values, vec![vec![1], vec![3]]);
}

#[test]
fn a_notice_about_an_unknown_die_changes_nothing() {
    let mut session = started(&[1], 1);
    let readings = vec![reading(1, 3), reading(2, 4)];
    assert!(session.settle(2, &readings).is_none());
    assert_eq!(session.previous().values, vec![Vec::<usize>::new()]);
    assert_eq!(session.settle(1, &readings).unwrap().values, vec![vec![3]]);
}

#[test]
fn a_second_request_gives_up_the_first_roll() {
    let mut session = started(&[2, 1], 10);
    let readings = vec![reading(10, 1), reading(11, 2), reading(12, 3)];
    assert_eq!(session.settle(10, &readings).unwrap().values, vec![vec![1, 2], vec![3]]);

    let plan: RollPlan = session.start(&request(&[1, 1])).unwrap();
    assert_eq!(plan.despawn, vec![10, 11, 12]);
    assert_eq!(plan.spawn.len(), 2);
    assert!(!session.is_tracked(10) && !session.is_tracked(11) && !session.is_tracked(12));
    assert_eq!(session.previous().values, vec![Vec::<usize>::new(), Vec::new()]);

    // Late notices about the dice of the first roll.
    assert!(session.settle(10, &readings).is_none());
    assert!(session.settle_all(&vec![11, 12, 10], &readings).is_none());
    assert_eq!(session.previous().values, vec![Vec::<usize>::new(), Vec::new()]);
    assert_eq!(session.dice_in_field(0), Vec::<u64>::new());

    assert!(session.track(0, 30));
    assert!(session.track(1, 31));
    assert!(session.settle(12, &readings).is_none());
    let fresh = vec![reading(30, 6), reading(31, 5), reading(10, 1)];
    assert_eq!(session.settle(31, &fresh).unwrap().values, vec![vec![6], vec![5]]);
}

#[test]
fn a_second_request_in_mid_roll_removes_dice_not_yet_at_rest() {
    let mut session = started(&[2], 1);
    let plan = session.start(&request(&[0])).unwrap();
    assert_eq!(plan.despawn, vec![1, 2]);
    assert!(plan.spawn.is_empty());
    let next = session.start(&request(&[1])).unwrap();
    assert!(next.despawn.is_empty());
    assert_eq!(next.spawn.len(), 1);
}

#[test]
fn dice_are_picked_out_of_the_contacts() {
    let session = started(&[2, 1], 10);
    let contacts = vec![
        Contact { first: 10, second: 500 },
        Contact { first: 500, second: 501 },
        Contact { first: 12, second: 11 },
        Contact { first: 500, second: 10 },
        Contact { first: 11, second: 11 },
    ];
    assert_eq!(session.settled_dice(&contacts), vec![10, 12, 11, 10, 11, 11]);
    assert!(session.settled_dice(&Vec::new()).is_empty());
}

#[test]
fn the_notices_of_one_tick_give_one_report() {
    let mut session = started(&[2], 1);
    let readings = vec![reading(1, 4), reading(2, 4)];
    let report = session.settle_all(&vec![9, 1, 2, 1, 2], &readings);
    assert_eq!(report.unwrap().values, vec![vec![4, 4]]);
    assert!(session.settle_all(&vec![1, 2], &readings).is_none());
    assert!(session.settle_all(&Vec::new(), &vec![reading(1, 1), reading(2, 1)]).is_none());
    assert!(session.settle_all(&vec![9, 8], &vec![reading(1, 1), reading(2, 1)]).is_none());
    assert_eq!(session.previous().values, vec![vec![4, 4]]);
}

#[test]
fn handling_notices_together_or_one_by_one_is_the_same() {
    let readings = vec![reading(1, 2), reading(2, 3), reading(3, 5)];
    let notices: Vec<u64> = vec![7, 3, 1, 7, 2];
    let mut together = started(&[1, 2], 1);
    let mut one_by_one = started(&[1, 2], 1);
    let report = together.settle_all(&notices, &readings);
    let mut reports = Vec::new();
    for &die in notices.iter() {
        if let Some(found) = one_by_one.settle(die, &readings) {
            reports.push(found);
        }
    }
    assert_eq!(reports.len(), 1);
    assert_eq!(report.unwrap(), reports[0]);
    assert_eq!(together.previous(), one_by_one.previous());
}

#[test]
fn a_session_for_other_dice_uses_their_faces() {
    let faces = vec![
        Face { normal: Direction { x: 0, y: 1, z: 0 }, value: 20 },
        Face { normal: Direction { x: 0, y: -1, z: 0 }, value: 1 },
    ];
    let settings = DicePluginSettings { render_size: (0, 0), number_of_fields: 1 };
    let mut session = RollSession::new(&settings, FaceMap::new(faces).unwrap());
    session.start(&request(&[1])).unwrap();
    assert!(session.track(0, 4));
    assert_eq!(session.settle(4, &vec![reading(4, 1)]).unwrap().values, vec![vec![20]]);
    assert_eq!(session.settle(4, &vec![reading(4, 6)]).unwrap().values, vec![vec![1]]);
    assert_eq!(session.settle(4, &vec![reading(4, 2)]).unwrap().values, vec![vec![0]]);
}

#[test]
fn a_session_without_fields_accepts_the_empty_request() {
    let mut session = session_over(0);
    let plan = session.start(&request(&[])).unwrap();
    assert!(plan.despawn.is_empty() && plan.spawn.is_empty());
    assert!(session.is_rolling());
    assert!(session.previous().values.is_empty());
    assert!(!session.track(0, 1));
}

//! A roll session as a mathematical value, the steps it takes, and what
//! holds of them.

use vstd::prelude::*;
use crate::classifier::spec_classify;
use crate::events::{Contact, DieReading};
use crate::face_map::Face;
use crate::geometry::DieOrientation;
use crate::rows::{lemma_join_of_empty_rows, spec_empty_rows, spec_join};

verus! {

/// The least height, in thousandths of a length unit, from which a die is
/// dropped unless the session is told otherwise.
pub const DEFAULT_DROP_LOW: u32 = 2_000;

/// The height, in thousandths of a length unit, below which every die is
/// dropped unless the session is told otherwise.
pub const DEFAULT_DROP_HIGH: u32 = 5_000;

/// Position `i` holds the first reading of `die`.
pub open spec fn is_first_reading(readings: Seq<DieReading>, die: u64, i: int) -> bool {
    &&& 0 <= i < readings.len()
    &&& readings[i].die == die
    &&& forall|j: int| 0 <= j < i ==> (#[trigger] readings[j]).die != die
}

/// How `die` is turned according to `readings`: by its first reading, if it
/// has one.
pub open spec fn spec_reading(readings: Seq<DieReading>, die: u64) -> Option<DieOrientation> {
    if exists|i: int| is_first_reading(readings, die, i) {
        Some(readings[choose|i: int| is_first_reading(readings, die, i)].orientation)
    } else {
        None
    }
}

/// What the dice `dice` show, in their order. A die without a reading shows
/// nothing and is left out.
pub open spec fn spec_field_faces(
    dice: Seq<u64>,
    faces: Seq<Face>,
    readings: Seq<DieReading>,
) -> Seq<usize>
    decreases dice.len(),
{
    if dice.len() == 0 {
        Seq::empty()
    } else {
        let earlier = spec_field_faces(dice.drop_last(), faces, readings);
        match spec_reading(readings, dice.last()) {
            Some(orientation) => earlier.push(spec_classify(orientation, faces)),
            None => earlier,
        }
    }
}

/// For each field the field's own position, once for each die asked for.
pub open spec fn spec_spawn_fields(counts: Seq<usize>) -> Seq<usize>
    decreases counts.len(),
{
    if counts.len() == 0 {
        Seq::empty()
    } else {
        spec_spawn_fields(counts.drop_last()) + Seq::new(
            counts.last() as nat,
            |k: int| (counts.len() - 1) as usize,
        )
    }
}

/// A session as a mathematical value.
pub struct SessionState {
    /// How many fields there are.
    pub field_count: nat,
    /// Dice are dropped from heights in `drop_low..drop_high`.
    pub drop_low: u32,
    pub drop_high: u32,
    /// The faces of the dice rolled.
    pub faces: Seq<Face>,
    /// Whether a roll has been started.
    pub rolling: bool,
    /// How many dice the roll under way asked for, by field.
    pub planned: Seq<usize>,
    /// The dice of the roll under way, by field, in the order spawned.
    pub fields: Seq<Seq<u64>>,
    /// What was last reported, or the fields without dice if nothing was.
    pub previous: Seq<Seq<usize>>,
}

impl SessionState {
    /// What holds of every session.
    pub open spec fn wf(self) -> bool {
        &&& self.drop_low < self.drop_high
        &&& self.planned.len() == self.field_count
        &&& self.fields.len() == self.field_count
        &&& self.previous.len() == self.field_count
        &&& forall|f: int|
            0 <= f < self.field_count ==> (#[trigger] self.fields[f]).len() <= self.planned[f]
        &&& forall|f: int|
            0 <= f < self.field_count ==> (#[trigger] self.previous[f]).len()
                <= self.fields[f].len()
        &&& forall|f: int, k: int, g: int, l: int|
            0 <= f < self.field_count && 0 <= k < self.fields[f].len() && 0 <= g
                < self.field_count && 0 <= l < self.fields[g].len() && (f != g || k != l)
                ==> #[trigger] self.fields[f][k] != #[trigger] self.fields[g][l]
        &&& !self.rolling ==> forall|f: int|
            0 <= f < self.field_count ==> #[trigger] self.planned[f] == 0
    }

    /// The session before its first roll.
    pub open spec fn initial(field_count: nat, faces: Seq<Face>) -> SessionState {
        SessionState {
            field_count,
            drop_low: DEFAULT_DROP_LOW,
            drop_high: DEFAULT_DROP_HIGH,
            faces,
            rolling: false,
            planned: Seq::new(field_count, |f: int| 0usize),
            fields: spec_empty_rows(field_count),
            previous: spec_empty_rows(field_count),
        }
    }

    /// `die` belongs to the roll under way.
    pub open spec fn tracks(self, die: u64) -> bool {
        exists|f: int, k: int|
            0 <= f < self.fields.len() && 0 <= k < self.fields[f].len()
                && #[trigger] self.fields[f][k] == die
    }

    /// All dice of the roll under way, field by field.
    pub open spec fn all_dice(self) -> Seq<u64> {
        spec_join(self.fields)
    }

    /// A request with these counts is accepted.
    pub open spec fn accepts(self, counts: Seq<usize>) -> bool {
        counts.len() == self.field_count
    }

    /// The session after it has accepted a request with these counts: the
    /// dice of the roll before are forgotten, and so is what they showed.
    pub open spec fn start(self, counts: Seq<usize>) -> SessionState {
        SessionState {
            rolling: true,
            planned: counts,
            fields: spec_empty_rows(self.field_count),
            previous: spec_empty_rows(self.field_count),
            ..self
        }
    }

    /// A die `die` spawned into field `field` is taken into the roll: a
    /// roll is under way, the field exists and still waits for dice, and
    /// the die is new.
    pub open spec fn can_track(self, field: int, die: u64) -> bool {
        &&& self.rolling
        &&& 0 <= field < self.field_count
        &&& self.fields[field].len() < self.planned[field]
        &&& !self.tracks(die)
    }

    /// The session after `die` was taken into field `field`.
    pub open spec fn track(self, field: int, die: u64) -> SessionState {
        SessionState { fields: self.fields.update(field, self.fields[field].push(die)), ..self }
    }

    /// What the dice of the roll under way show according to `readings`.
    pub open spec fn outcome(self, readings: Seq<DieReading>) -> Seq<Seq<usize>> {
        Seq::new(
            self.field_count,
            |f: int| spec_field_faces(self.fields[f], self.faces, readings),
        )
    }

    /// The session after a notice that `die` has settled, and what is
    /// reported: nothing for a die that the session does not track, and
    /// nothing if the dice show what was last reported.
    pub open spec fn settle(self, die: u64, readings: Seq<DieReading>) -> (
        SessionState,
        Option<Seq<Seq<usize>>>,
    ) {
        let shown = self.outcome(readings);
        if self.tracks(die) && shown != self.previous {
            (SessionState { previous: shown, ..self }, Some(shown))
        } else {
            (self, None)
        }
    }

    /// The session after the notices of one tick, all judged by the same
    /// readings, and what is reported.
    pub open spec fn settle_all(self, dice: Seq<u64>, readings: Seq<DieReading>) -> (
        SessionState,
        Option<Seq<Seq<usize>>>,
    ) {
        let shown = self.outcome(readings);
        if (exists|i: int| 0 <= i < dice.len() && self.tracks(#[trigger] dice[i])) && shown
            != self.previous {
            (SessionState { previous: shown, ..self }, Some(shown))
        } else {
            (self, None)
        }
    }

    /// The dice among the bodies of `contacts`, in the order of the
    /// contacts, the first body of each before the second.
    pub open spec fn settled_dice(self, contacts: Seq<Contact>) -> Seq<u64>
        decreases contacts.len(),
    {
        if contacts.len() == 0 {
            Seq::empty()
        } else {
            let last = contacts.last();
            let earlier = self.settled_dice(contacts.drop_last());
            let with_first = if self.tracks(last.first) {
                earlier.push(last.first)
            } else {
                earlier
            };
            if self.tracks(last.second) {
                with_first.push(last.second)
            } else {
                with_first
            }
        }
    }
}

/// No field shows more faces than it has dice.
pub proof fn lemma_field_faces_length(dice: Seq<u64>, faces: Seq<Face>, readings: Seq<DieReading>)
    ensures
        spec_field_faces(dice, faces, readings).len() <= dice.len(),
        (forall|k: int| 0 <= k < dice.len() ==> spec_reading(readings, #[trigger] dice[k]) is Some)
            ==> spec_field_faces(dice, faces, readings).len() == dice.len(),
    decreases dice.len(),
{
    if dice.len() > 0 {
        lemma_field_faces_length(dice.drop_last(), faces, readings);
        if forall|k: int| 0 <= k < dice.len() ==> spec_reading(readings, #[trigger] dice[k]) is Some {
            assert forall|k: int| 0 <= k < dice.drop_last().len() implies spec_reading(
                readings,
                #[trigger] dice.drop_last()[k],
            ) is Some by {
                assert(dice.drop_last()[k] == dice[k]);
            }
            assert(spec_reading(readings, dice[dice.len() - 1]) is Some);
        }
    }
}

/// What a session's dice show has one list for each field, none longer
/// than the field has dice, and as long as the request asked for once all
/// dice of the field are in the roll and have a reading.
pub proof fn lemma_outcome_shape(state: SessionState, readings: Seq<DieReading>)
    requires
        state.wf(),
    ensures
        state.outcome(readings).len() == state.field_count,
        forall|f: int|
            0 <= f < state.field_count ==> (#[trigger] state.outcome(readings)[f]).len()
                <= state.fields[f].len() <= state.planned[f],
        forall|f: int|
            0 <= f < state.field_count && state.fields[f].len() == state.planned[f] && (forall|
                k: int,
            |
                0 <= k < state.fields[f].len() ==> spec_reading(
                    readings,
                    #[trigger] state.fields[f][k],
                ) is Some) ==> (#[trigger] state.outcome(readings)[f]).len() == state.planned[f],
{
    assert forall|f: int| 0 <= f < state.field_count implies (#[trigger] state.outcome(
        readings,
    )[f]).len() <= state.fields[f].len() <= state.planned[f] by {
        lemma_field_faces_length(state.fields[f], state.faces, readings);
    }
    assert forall|f: int|
        0 <= f < state.field_count && state.fields[f].len() == state.planned[f] && (forall|k: int|
            0 <= k < state.fields[f].len() ==> spec_reading(
                readings,
                #[trigger] state.fields[f][k],
            ) is Some) implies (#[trigger] state.outcome(readings)[f]).len()
        == state.planned[f] by {
        lemma_field_faces_length(state.fields[f], state.faces, readings);
    }
}

/// Whatever a notice makes a session report has one list for each field,
/// none longer than the request asked for, and each as long as the request
/// asked for once all dice of its field are in the roll and have a
/// reading.
pub proof fn lemma_report_shape(state: SessionState, die: u64, readings: Seq<DieReading>)
    requires
        state.wf(),
        state.settle(die, readings).1 is Some,
    ensures
        ({
            let report = state.settle(die, readings).1.unwrap();
            &&& report.len() == state.field_count
            &&& forall|f: int|
                0 <= f < state.field_count ==> (#[trigger] report[f]).len() <= state.planned[f]
            &&& forall|f: int|
                0 <= f < state.field_count && state.fields[f].len() == state.planned[f] && (
                forall|k: int|
                    0 <= k < state.fields[f].len() ==> spec_reading(
                        readings,
                        #[trigger] state.fields[f][k],
                    ) is Some) ==> (#[trigger] report[f]).len() == state.planned[f]
        }),
{
    lemma_outcome_shape(state, readings);
}

/// Every step leaves a session well formed.
pub proof fn lemma_steps_keep_wf(
    state: SessionState,
    counts: Seq<usize>,
    field: int,
    die: u64,
    readings: Seq<DieReading>,
)
    requires
        state.wf(),
    ensures
        state.accepts(counts) ==> state.start(counts).wf(),
        state.can_track(field, die) ==> state.track(field, die).wf(),
        state.settle(die, readings).0.wf(),
{
    if state.can_track(field, die) {
        let after = state.track(field, die);
        assert forall|f: int, k: int, g: int, l: int|
            0 <= f < after.field_count && 0 <= k < after.fields[f].len() && 0 <= g
                < after.field_count && 0 <= l < after.fields[g].len() && (f != g || k
                != l) implies #[trigger] after.fields[f][k] != #[trigger] after.fields[g][l] by {
            let old_f = f != field || k < state.fields[f].len();
            let old_g = g != field || l < state.fields[g].len();
            if old_f && old_g {
                assert(state.fields[f][k] != state.fields[g][l]);
            } else if old_f {
                assert(state.fields[f][k] != die);
            } else if old_g {
                assert(state.fields[g][l] != die);
            }
        }
        assert forall|f: int| 0 <= f < after.field_count implies (#[trigger] after.previous[f]).len()
            <= after.fields[f].len() by {
            assert(state.previous[f].len() <= state.fields[f].len());
        }
        assert forall|f: int| 0 <= f < after.field_count implies (#[trigger] after.fields[f]).len()
            <= after.planned[f] by {
            assert(state.fields[f].len() <= state.planned[f]);
        }
    }
    lemma_outcome_shape(state, readings);
}

/// What a request asked for stays as it is until the next request: taking
/// a die into the roll and handling a notice leave the number of fields
/// and the dice asked for in each untouched.
pub proof fn lemma_steps_keep_the_request(
    state: SessionState,
    counts: Seq<usize>,
    field: int,
    die: u64,
    readings: Seq<DieReading>,
)
    ensures
        state.start(counts).planned == counts,
        state.start(counts).field_count == state.field_count,
        state.track(field, die).planned == state.planned,
        state.track(field, die).field_count == state.field_count,
        state.settle(die, readings).0.planned == state.planned,
        state.settle(die, readings).0.field_count == state.field_count,
        state.settle(die, readings).0.fields == state.fields,
{
}

/// A session that is well formed tracks no die while it is idle, and so
/// lets every notice pass.
pub proof fn lemma_idle_ignores_notices(state: SessionState, die: u64, readings: Seq<DieReading>)
    requires
        state.wf(),
        !state.rolling,
    ensures
        !state.tracks(die),
        state.settle(die, readings) == (state, None::<Seq<Seq<usize>>>),
{
    assert forall|f: int, k: int|
        0 <= f < state.fields.len() && 0 <= k < state.fields[f].len() implies #[trigger] state.fields[f][k]
        != die by {
        assert(state.fields[f].len() <= state.planned[f]);
    }
}

/// A new request gives up the dice of the roll before: once it is
/// accepted the session tracks no die, and a notice about any die, those
/// of the roll before among them, changes nothing and reports nothing,
/// until the die is taken into the new roll.
pub proof fn lemma_start_forgets_dice(
    state: SessionState,
    counts: Seq<usize>,
    die: u64,
    readings: Seq<DieReading>,
)
    requires
        state.accepts(counts),
    ensures
        !state.start(counts).tracks(die),
        state.start(counts).all_dice() == Seq::<u64>::empty(),
        state.start(counts).settle(die, readings) == (
            state.start(counts),
            None::<Seq<Seq<usize>>>,
        ),
{
    lemma_join_of_empty_rows::<u64>(state.field_count);
}

/// A notice about a die that the session does not track changes nothing
/// and reports nothing.
pub proof fn lemma_unknown_die_is_ignored(state: SessionState, die: u64, readings: Seq<DieReading>)
    requires
        !state.tracks(die),
    ensures
        state.settle(die, readings) == (state, None::<Seq<Seq<usize>>>),
{
}

/// What is shown is reported once: after a notice about a die of the roll,
/// a further notice about a die of the roll reports nothing if the dice
/// show the same as at the first.
pub proof fn lemma_same_outcome_is_reported_once(
    state: SessionState,
    first: u64,
    first_readings: Seq<DieReading>,
    second: u64,
    second_readings: Seq<DieReading>,
)
    requires
        state.tracks(first),
        state.outcome(first_readings) == state.outcome(second_readings),
    ensures
        state.settle(first, first_readings).1 is Some <==> state.outcome(first_readings)
            != state.previous,
        state.settle(first, first_readings).0.previous == state.outcome(first_readings),
        state.settle(first, first_readings).0.settle(second, second_readings) == (
            state.settle(first, first_readings).0,
            None::<Seq<Seq<usize>>>,
        ),
{
    let after = state.settle(first, first_readings).0;
    assert(after.outcome(second_readings) =~= state.outcome(second_readings));
}

impl SessionState {
    /// The session after the notices `dice`, handled one after another by
    /// [`Self::settle`] with the same readings, and the first report that
    /// came of them.
    pub open spec fn settle_each(self, dice: Seq<u64>, readings: Seq<DieReading>) -> (
        SessionState,
        Option<Seq<Seq<usize>>>,
    )
        decreases dice.len(),
    {
        if dice.len() == 0 {
            (self, None)
        } else {
            let (before, earlier) = self.settle_each(dice.drop_last(), readings);
            let (after, report) = before.settle(dice.last(), readings);
            (
                after,
                if earlier is Some {
                    earlier
                } else {
                    report
                },
            )
        }
    }
}

/// Handling the notices of one tick one after another comes to the same
/// as handling them together, and no notice after the first that led to a
/// report leads to another.
pub proof fn lemma_settle_all_is_settle_each(
    state: SessionState,
    dice: Seq<u64>,
    readings: Seq<DieReading>,
)
    ensures
        state.settle_each(dice, readings) == state.settle_all(dice, readings),
        dice.len() > 0 && state.settle_each(dice.drop_last(), readings).1 is Some
            ==> state.settle_each(dice.drop_last(), readings).0.settle(dice.last(), readings).1
            is None,
    decreases dice.len(),
{
    if dice.len() > 0 {
        let shorter = dice.drop_last();
        lemma_settle_all_is_settle_each(state, shorter, readings);
        let (before, earlier) = state.settle_each(shorter, readings);
        let shown = state.outcome(readings);
        assert(before.outcome(readings) =~= shown);
        if exists|i: int| 0 <= i < shorter.len() && state.tracks(#[trigger] shorter[i]) {
            let i = choose|i: int| 0 <= i < shorter.len() && state.tracks(#[trigger] shorter[i]);
            assert(dice[i] == shorter[i]);
        } else if state.tracks(dice.last()) {
            assert(state.tracks(dice[dice.len() - 1]));
        } else {
            assert forall|i: int| 0 <= i < dice.len() implies !state.tracks(#[trigger] dice[i]) by {
                if i < shorter.len() {
                    assert(dice[i] == shorter[i]);
                }
            }
        }
    }
}

/// Only dice of the roll under way come out of the contacts, at most two
/// for each contact.
pub proof fn lemma_settled_dice_are_tracked(state: SessionState, contacts: Seq<Contact>)
    ensures
        forall|i: int|
            0 <= i < state.settled_dice(contacts).len() ==> state.tracks(
                #[trigger] state.settled_dice(contacts)[i],
            ),
        state.settled_dice(contacts).len() <= 2 * contacts.len(),
    decreases contacts.len(),
{
    if contacts.len() > 0 {
        lemma_settled_dice_are_tracked(state, contacts.drop_last());
    }
}

} // verus!

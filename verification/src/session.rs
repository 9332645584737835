//! A roll session: which dice are rolling, and what they last showed.

use vstd::prelude::*;
use crate::classifier::classify;
use crate::events::{
    spec_fields_of,
    ConfigError,
    Contact,
    DicePluginSettings,
    DiceRollResult,
    DiceRollStartEvent,
    DieReading,
    RollPlan,
};
use crate::face_map::FaceMap;
use crate::geometry::DieOrientation;
use crate::rows::{copy_row, copy_rows, empty_rows, join_rows, same_rows, spec_rows};
use crate::state::{
    is_first_reading,
    lemma_outcome_shape,
    lemma_steps_keep_wf,
    spec_field_faces,
    spec_reading,
    spec_spawn_fields,
    SessionState,
    DEFAULT_DROP_HIGH,
    DEFAULT_DROP_LOW,
};
use crate::toss::{SpawnCommand, Toss};

verus! {

/// One roll after another, over a fixed number of fields.
///
/// The session is idle until the first request to roll. From then on a
/// roll is under way at all times: a new request replaces the roll before
/// it, whether or not its dice have come to rest.
#[derive(Clone, Debug)]
pub struct RollSession {
    face_map: FaceMap,
    drop_low: u32,
    drop_high: u32,
    rolling: bool,
    planned: Vec<usize>,
    fields: Vec<Vec<u64>>,
    previous: Vec<Vec<usize>>,
}

impl View for RollSession {
    type V = SessionState;

    closed spec fn view(&self) -> SessionState {
        SessionState {
            field_count: self.fields@.len(),
            drop_low: self.drop_low,
            drop_high: self.drop_high,
            faces: self.face_map@,
            rolling: self.rolling,
            planned: self.planned@,
            fields: spec_rows(self.fields@),
            previous: spec_rows(self.previous@),
        }
    }
}

impl RollSession {
    /// What holds of every session that this module hands out.
    pub open spec fn wf(&self) -> bool {
        self@.wf()
    }

    /// Makes an idle session over as many fields as `settings` names, for
    /// dice with the faces of `face_map`.
    pub fn new(settings: &DicePluginSettings, face_map: FaceMap) -> (session: RollSession)
        ensures
            session.wf(),
            session@ == SessionState::initial(settings.number_of_fields as nat, face_map@),
    {
        let count: usize = settings.number_of_fields;
        let mut planned: Vec<usize> = Vec::new();
        let mut i: usize = 0;
        while i < count
            invariant
                i <= count,
                planned@.len() == i,
                forall|j: int| 0 <= j < i ==> #[trigger] planned@[j] == 0,
            decreases count - i,
        {
            planned.push(0);
            i += 1;
        }
        let session = RollSession {
            face_map,
            drop_low: DEFAULT_DROP_LOW,
            drop_high: DEFAULT_DROP_HIGH,
            rolling: false,
            planned,
            fields: empty_rows(count),
            previous: empty_rows(count),
        };
        proof {
            let state = SessionState::initial(count as nat, face_map@);
            assert(session@.planned =~= state.planned);
            assert(session.fields@.len() == spec_rows(session.fields@).len());
        }
        session
    }

    /// Whether `die` belongs to the roll under way.
    pub fn is_tracked(&self, die: u64) -> (found: bool)
        ensures
            found == self@.tracks(die),
    {
        let ghost fields = spec_rows(self.fields@);
        let mut f: usize = 0;
        while f < self.fields.len()
            invariant
                fields == spec_rows(self.fields@),
                f <= self.fields@.len(),
                forall|g: int, k: int|
                    0 <= g < f && 0 <= k < fields[g].len() ==> #[trigger] fields[g][k] != die,
            decreases self.fields@.len() - f,
        {
            let row: &Vec<u64> = &self.fields[f];
            let mut k: usize = 0;
            while k < row.len()
                invariant
                    fields == spec_rows(self.fields@),
                    f < self.fields@.len(),
                    row@ == fields[f as int],
                    k <= row@.len(),
                    forall|l: int| 0 <= l < k ==> #[trigger] fields[f as int][l] != die,
                decreases row@.len() - k,
            {
                if row[k] == die {
                    assert(self@.fields == fields);
                    assert(0 <= f < fields.len() && 0 <= k < fields[f as int].len());
                    assert(fields[f as int][k as int] == die);
                    return true;
                }
                k += 1;
            }
            f += 1;
        }
        false
    }

    /// How many fields there are.
    pub fn field_count(&self) -> (count: usize)
        ensures
            count == self@.field_count,
    {
        self.fields.len()
    }

    /// Whether a roll has been started.
    pub fn is_rolling(&self) -> (rolling: bool)
        ensures
            rolling == self@.rolling,
    {
        self.rolling
    }

    /// The faces of the dice rolled.
    pub fn face_map(&self) -> (face_map: &FaceMap)
        ensures
            face_map@ == self@.faces,
    {
        &self.face_map
    }

    /// What was last reported; before the first report of a roll, one empty
    /// list for each field.
    pub fn previous(&self) -> (result: DiceRollResult)
        ensures
            result@ == self@.previous,
    {
        DiceRollResult { values: copy_rows(&self.previous) }
    }

    /// The dice of field `field` in the roll under way, in the order
    /// spawned; of a field that does not exist, none.
    pub fn dice_in_field(&self, field: usize) -> (dice: Vec<u64>)
        ensures
            dice@ == (if field < self@.field_count {
                self@.fields[field as int]
            } else {
                Seq::empty()
            }),
    {
        if field < self.fields.len() {
            copy_row(&self.fields[field])
        } else {
            Vec::new()
        }
    }

    /// Sets the heights from which dice are dropped to `low..high`,
    /// measured in thousandths of a length unit. An empty range is turned
    /// down and changes nothing.
    pub fn set_drop_heights(&mut self, low: u32, high: u32) -> (changed: bool)
        requires
            old(self).wf(),
        ensures
            final(self).wf(),
            changed == (low < high),
            changed ==> final(self)@ == (SessionState {
                drop_low: low,
                drop_high: high,
                ..old(self)@
            }),
            !changed ==> final(self)@ == old(self)@,
    {
        if low < high {
            self.drop_low = low;
            self.drop_high = high;
            true
        } else {
            false
        }
    }

    /// Handles a request to roll.
    ///
    /// A request that names another number of fields than the session has
    /// is turned down and changes nothing. Otherwise the roll before is
    /// given up, whether or not its dice have come to rest: all its dice
    /// are to be removed, what they showed is forgotten, and for each field
    /// as many new dice are to be spawned as the request asks for, each
    /// turned and dropped at random. The new dice enter the roll one by one
    /// through [`Self::track`], under the names that the physics provider
    /// gives them.
    pub fn start(&mut self, request: &DiceRollStartEvent) -> (plan: Result<RollPlan, ConfigError>)
        requires
            old(self).wf(),
        ensures
            final(self).wf(),
            match plan {
                Ok(plan) => {
                    &&& old(self)@.accepts(request.num_dice@)
                    &&& final(self)@ == old(self)@.start(request.num_dice@)
                    &&& plan.despawn@ == old(self)@.all_dice()
                    &&& spec_fields_of(plan.spawn@) == spec_spawn_fields(request.num_dice@)
                    &&& forall|k: int|
                        0 <= k < plan.spawn@.len() ==> (#[trigger] plan.spawn@[k]).toss.within(
                            old(self)@.drop_low,
                            old(self)@.drop_high,
                        )
                },
                Err(error) => {
                    &&& !old(self)@.accepts(request.num_dice@)
                    &&& error == (ConfigError::FieldCountMismatch {
                        expected: old(self)@.field_count as usize,
                        found: request.num_dice@.len() as usize,
                    })
                    &&& final(self)@ == old(self)@
                },
            },
    {
        let count: usize = self.fields.len();
        if request.num_dice.len() != count {
            return Err(
                ConfigError::FieldCountMismatch { expected: count, found: request.num_dice.len() },
            );
        }
        let despawn: Vec<u64> = join_rows(&self.fields);
        let spawn: Vec<SpawnCommand> = spawn_commands(
            &request.num_dice,
            self.drop_low,
            self.drop_high,
        );
        self.planned = copy_row(&request.num_dice);
        self.fields = empty_rows(count);
        self.previous = empty_rows(count);
        self.rolling = true;
        proof {
            assert(spec_rows(self.fields@).len() == count);
        }
        Ok(RollPlan { despawn, spawn })
    }

    /// Takes a die that the physics provider has spawned into field `field`
    /// into the roll under way, and says whether it did.
    ///
    /// The die is turned away, and nothing changes, while no roll is under
    /// way, if there is no such field, if the field already holds as many
    /// dice as the request asked for, or if the session tracks a die of
    /// this name already.
    pub fn track(&mut self, field: usize, die: u64) -> (accepted: bool)
        requires
            old(self).wf(),
        ensures
            final(self).wf(),
            accepted == old(self)@.can_track(field as int, die),
            accepted ==> final(self)@ == old(self)@.track(field as int, die),
            !accepted ==> final(self)@ == old(self)@,
    {
        if !self.rolling || field >= self.fields.len() {
            return false;
        }
        if self.fields[field].len() >= self.planned[field] {
            return false;
        }
        if self.is_tracked(die) {
            return false;
        }
        let ghost before = self@;
        self.fields[field].push(die);
        proof {
            let after = before.track(field as int, die);
            assert(spec_rows(self.fields@) =~= after.fields);
            lemma_steps_keep_wf(before, before.planned, field as int, die, Seq::empty());
        }
        true
    }

    /// What the dice of the roll under way show according to `readings`,
    /// field by field.
    pub fn outcome(&self, readings: &Vec<DieReading>) -> (result: DiceRollResult)
        ensures
            result@ == self@.outcome(readings@),
    {
        let mut values: Vec<Vec<usize>> = Vec::new();
        let mut f: usize = 0;
        while f < self.fields.len()
            invariant
                f <= self.fields@.len(),
                values@.len() == f,
                forall|g: int|
                    0 <= g < f ==> (#[trigger] values@[g])@ == spec_field_faces(
                        self.fields@[g]@,
                        self.face_map@,
                        readings@,
                    ),
            decreases self.fields@.len() - f,
        {
            values.push(field_faces(&self.fields[f], &self.face_map, readings));
            f += 1;
        }
        assert(spec_rows(values@) =~= self@.outcome(readings@));
        DiceRollResult { values }
    }

    /// Handles the notice that `die` has begun or ceased to touch another
    /// body.
    ///
    /// A notice about a die that the session does not track changes
    /// nothing and reports nothing. Otherwise all dice of the roll are
    /// classified anew from `readings`. If they show what was last
    /// reported, nothing is reported again; if not, what they show is
    /// remembered and reported.
    pub fn settle(&mut self, die: u64, readings: &Vec<DieReading>) -> (event: Option<
        DiceRollResult,
    >)
        requires
            old(self).wf(),
        ensures
            final(self).wf(),
            final(self)@ == old(self)@.settle(die, readings@).0,
            match event {
                Some(result) => old(self)@.settle(die, readings@).1 == Some(result@),
                None => old(self)@.settle(die, readings@).1 is None,
            },
    {
        if !self.is_tracked(die) {
            return None;
        }
        self.report(readings)
    }

    /// Classifies all dice anew and reports what they show, unless it is
    /// what was last reported.
    fn report(&mut self, readings: &Vec<DieReading>) -> (event: Option<DiceRollResult>)
        requires
            old(self).wf(),
        ensures
            final(self).wf(),
            match event {
                Some(result) => {
                    &&& result@ == old(self)@.outcome(readings@)
                    &&& result@ != old(self)@.previous
                    &&& final(self)@ == (SessionState { previous: result@, ..old(self)@ })
                },
                None => {
                    &&& old(self)@.outcome(readings@) == old(self)@.previous
                    &&& final(self)@ == old(self)@
                },
            },
    {
        let shown: DiceRollResult = self.outcome(readings);
        if same_rows(&shown.values, &self.previous) {
            return None;
        }
        proof {
            lemma_outcome_shape(self@, readings@);
        }
        self.previous = copy_rows(&shown.values);
        Some(shown)
    }

    /// Handles the notices of one tick, in their order, all judged by the
    /// same readings. At most one report comes of them.
    pub fn settle_all(&mut self, dice: &Vec<u64>, readings: &Vec<DieReading>) -> (event: Option<
        DiceRollResult,
    >)
        requires
            old(self).wf(),
        ensures
            final(self).wf(),
            final(self)@ == old(self)@.settle_all(dice@, readings@).0,
            match event {
                Some(result) => old(self)@.settle_all(dice@, readings@).1 == Some(result@),
                None => old(self)@.settle_all(dice@, readings@).1 is None,
            },
    {
        let ghost before = self@;
        let mut i: usize = 0;
        while i < dice.len()
            invariant
                self.wf(),
                self@ == before,
                before == old(self)@,
                i <= dice@.len(),
                forall|j: int| 0 <= j < i ==> !before.tracks(#[trigger] dice@[j]),
            decreases dice@.len() - i,
        {
            if self.is_tracked(dice[i]) {
                assert(before.tracks(dice@[i as int]));
                return self.report(readings);
            }
            i += 1;
        }
        None
    }

    /// Picks the dice of the roll under way out of the bodies that began
    /// or ceased to touch: one notice for each body of a contact that is
    /// such a die, in the order of the contacts.
    pub fn settled_dice(&self, contacts: &Vec<Contact>) -> (dice: Vec<u64>)
        ensures
            dice@ == self@.settled_dice(contacts@),
    {
        let mut dice: Vec<u64> = Vec::new();
        let mut i: usize = 0;
        while i < contacts.len()
            invariant
                i <= contacts@.len(),
                dice@ == self@.settled_dice(contacts@.take(i as int)),
            decreases contacts@.len() - i,
        {
            proof {
                assert(contacts@.take(i + 1).drop_last() =~= contacts@.take(i as int));
                assert(contacts@.take(i + 1).last() == contacts@[i as int]);
            }
            let contact: Contact = contacts[i];
            if self.is_tracked(contact.first) {
                dice.push(contact.first);
            }
            if self.is_tracked(contact.second) {
                dice.push(contact.second);
            }
            i += 1;
        }
        assert(contacts@.take(contacts@.len() as int) =~= contacts@);
        dice
    }
}

/// Looks up how `die` is turned: its first reading counts.
pub fn find_reading(readings: &Vec<DieReading>, die: u64) -> (found: Option<DieOrientation>)
    ensures
        found == spec_reading(readings@, die),
{
    let mut i: usize = 0;
    while i < readings.len()
        invariant
            i <= readings@.len(),
            forall|j: int| 0 <= j < i ==> (#[trigger] readings@[j]).die != die,
        decreases readings@.len() - i,
    {
        if readings[i].die == die {
            proof {
                assert(is_first_reading(readings@, die, i as int));
                let chosen = choose|k: int| is_first_reading(readings@, die, k);
                assert(is_first_reading(readings@, die, chosen));
                if chosen < i {
                    assert(readings@[chosen].die != die);
                } else if i < chosen {
                    assert(readings@[i as int].die != die);
                }
            }
            return Some(readings[i].orientation);
        }
        i += 1;
    }
    proof {
        assert forall|k: int| !is_first_reading(readings@, die, k) by {
            if 0 <= k < readings@.len() {
                assert(readings@[k].die != die);
            }
        }
    }
    None
}

/// Classifies the dice of one field, leaving out those without a reading.
fn field_faces(dice: &Vec<u64>, face_map: &FaceMap, readings: &Vec<DieReading>) -> (shown: Vec<
    usize,
>)
    ensures
        shown@ == spec_field_faces(dice@, face_map@, readings@),
{
    let mut shown: Vec<usize> = Vec::new();
    let mut k: usize = 0;
    while k < dice.len()
        invariant
            k <= dice@.len(),
            shown@ == spec_field_faces(dice@.take(k as int), face_map@, readings@),
        decreases dice@.len() - k,
    {
        proof {
            assert(dice@.take(k + 1).drop_last() =~= dice@.take(k as int));
            assert(dice@.take(k + 1).last() == dice@[k as int]);
        }
        match find_reading(readings, dice[k]) {
            Some(orientation) => {
                shown.push(classify(&orientation, face_map));
            },
            None => {},
        }
        k += 1;
    }
    assert(dice@.take(dice@.len() as int) =~= dice@);
    shown
}

/// Writes one spawn command for each die that `counts` asks for, each with
/// a toss of its own.
fn spawn_commands(counts: &Vec<usize>, low: u32, high: u32) -> (spawn: Vec<SpawnCommand>)
    requires
        low < high,
    ensures
        spec_fields_of(spawn@) == spec_spawn_fields(counts@),
        forall|k: int| 0 <= k < spawn@.len() ==> (#[trigger] spawn@[k]).toss.within(low, high),
{
    let mut spawn: Vec<SpawnCommand> = Vec::new();
    let mut f: usize = 0;
    assert(spec_fields_of(spawn@) =~= spec_spawn_fields(counts@.take(0)));
    while f < counts.len()
        invariant
            low < high,
            f <= counts@.len(),
            spec_fields_of(spawn@) == spec_spawn_fields(counts@.take(f as int)),
            forall|k: int| 0 <= k < spawn@.len() ==> (#[trigger] spawn@[k]).toss.within(low, high),
        decreases counts@.len() - f,
    {
        let wanted: usize = counts[f];
        let ghost before = spec_fields_of(spawn@);
        let mut made: usize = 0;
        while made < wanted
            invariant
                low < high,
                made <= wanted,
                spec_fields_of(spawn@) == before + Seq::new(made as nat, |k: int| f),
                forall|k: int|
                    0 <= k < spawn@.len() ==> (#[trigger] spawn@[k]).toss.within(low, high),
            decreases wanted - made,
        {
            let ghost earlier = spawn@;
            spawn.push(SpawnCommand { field: f, toss: Toss::random(low, high) });
            assert(spec_fields_of(spawn@) =~= spec_fields_of(earlier).push(f));
            assert(before + Seq::new((made + 1) as nat, |k: int| f) =~= (before + Seq::new(
                made as nat,
                |k: int| f,
            )).push(f));
            made += 1;
        }
        proof {
            let next = counts@.take(f + 1);
            assert(next.drop_last() =~= counts@.take(f as int));
            assert(next.last() == wanted);
            assert(Seq::new(wanted as nat, |k: int| f) =~= Seq::new(
                next.last() as nat,
                |k: int| (next.len() - 1) as usize,
            ));
        }
        f += 1;
    }
    assert(counts@.take(counts@.len() as int) =~= counts@);
    spawn
}

} // verus!

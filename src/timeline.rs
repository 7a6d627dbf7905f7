use vstd::prelude::*;

use crate::lookup::{first_enclosing, is_predecessor};
use crate::model::{
    copy_dancers, encloses, models, well_formed, Dancer, Formation, FormationModel, Timeline,
    TimelineError, TimelineModel,
};
use crate::text::{decimal_text, id_text};
use crate::DEFAULT_WIDTH;

verus! {

/// Where `update_formation` put the given keyframe.
#[derive(Clone, Copy, Debug, PartialEq, Eq, Structural)]
pub enum UpdateOutcome {
    /// The keyframe at this index, which held the time, was overwritten.
    Replaced(usize),
    /// A new keyframe was inserted at this index.
    Inserted(usize),
}

/// `k` is where a keyframe for `t` goes: just after the predecessor of `t`,
/// or at the front when nothing ends before `t`.
pub open spec fn insertion_point<P>(s: Seq<FormationModel<P>>, t: int, k: int) -> bool {
    ||| (k == 0 && forall|j: int| 0 <= j < s.len() ==> !(#[trigger] s[j].end_time < t))
    ||| (1 <= k && is_predecessor(s, t, k - 1))
}

/// The keyframe that `update_formation` inserts at `t` for the payload `p`.
pub open spec fn inserted_keyframe<P>(p: FormationModel<P>, id: int, t: int) -> FormationModel<P> {
    FormationModel {
        id: id as i32,
        audio_track: p.audio_track,
        start_time: t as i32,
        end_time: (t + DEFAULT_WIDTH) as i32,
        entities: p.entities,
    }
}

/// The keyframe that `add_formation` appends after `last`.
pub open spec fn appended_keyframe<P>(last: FormationModel<P>) -> FormationModel<P> {
    FormationModel {
        id: (last.id + 1) as i32,
        audio_track: last.audio_track,
        start_time: last.end_time,
        end_time: (last.end_time + DEFAULT_WIDTH) as i32,
        entities: last.entities,
    }
}

/// The keyframe of an empty timeline: id 0 over `[0, 500)`, no audio, nobody.
pub open spec fn bootstrap_keyframe<P>() -> FormationModel<P> {
    FormationModel {
        id: 0,
        audio_track: Seq::empty(),
        start_time: 0,
        end_time: DEFAULT_WIDTH,
        entities: Seq::empty(),
    }
}

/// The update of `t` with payload `p` keeps the keyframes in order: an
/// overwritten keyframe stays between its neighbours with a non-empty range,
/// and an inserted one lies in a gap that nothing ends at or after `t` in.
pub open spec fn update_fits<P>(s: Seq<FormationModel<P>>, t: int, p: FormationModel<P>) -> bool {
    if exists|i: int| first_enclosing(s, t, i) {
        forall|i: int|
            first_enclosing(s, t, i) ==> {
                &&& p.start_time < p.end_time
                &&& forall|j: int| 0 <= j < i ==> #[trigger] s[j].end_time <= p.start_time
                &&& forall|j: int| i < j < s.len() ==> p.end_time <= #[trigger] s[j].start_time
            }
    } else {
        forall|j: int|
            0 <= j < s.len() ==> #[trigger] s[j].end_time < t || t + DEFAULT_WIDTH
                <= s[j].start_time
    }
}

/// `i` is the first keyframe with id `id`.
pub open spec fn first_with_id<P>(s: Seq<FormationModel<P>>, id: i32, i: int) -> bool {
    &&& 0 <= i < s.len()
    &&& s[i].id == id
    &&& forall|j: int| 0 <= j < i ==> #[trigger] s[j].id != id
}

/// `f` with `d` appended to its roster.
pub open spec fn with_entity<P>(f: FormationModel<P>, d: Dancer<P>) -> FormationModel<P> {
    FormationModel { entities: f.entities.push(d), ..f }
}

/// The id of the next entity of a roster: one past the last one's, or 0.
pub open spec fn next_entity_id<P>(roster: Seq<Dancer<P>>) -> int {
    if roster.len() == 0 {
        0
    } else {
        roster.last().id + 1
    }
}

proof fn lemma_insert_keeps_order<P>(
    s: Seq<FormationModel<P>>,
    t: int,
    k: int,
    x: FormationModel<P>,
)
    requires
        well_formed(s),
        insertion_point(s, t, k),
        x.start_time == t,
        x.end_time == t + DEFAULT_WIDTH,
        forall|j: int|
            0 <= j < s.len() ==> #[trigger] s[j].end_time < t || t + DEFAULT_WIDTH
                <= s[j].start_time,
    ensures
        well_formed(s.insert(k, x)),
{
    assert forall|j: int| 0 <= j < k implies #[trigger] s[j].end_time < t by {
        if j < k - 1 {
            assert(s[j].end_time <= s[k - 1].start_time);
            assert(s[k - 1].start_time < s[k - 1].end_time);
        }
    }
    assert forall|j: int| k <= j < s.len() implies t + DEFAULT_WIDTH <= #[trigger] s[j].start_time by {
        if s[j].end_time < t {
            assert(s[k - 1].end_time <= s[j].start_time);
            assert(s[j].start_time < s[j].end_time);
        }
    }
    let u = s.insert(k, x);
    assert forall|a: int| 0 <= a < u.len() implies #[trigger] u[a].start_time < u[a].end_time by {
        if a > k {
            assert(u[a] == s[a - 1]);
        }
    }
    assert forall|a: int, b: int| 0 <= a < b < u.len() implies #[trigger] u[a].end_time
        <= #[trigger] u[b].start_time by {
        if b < k {
        } else if b == k {
            assert(s[a].end_time < t);
        } else if a < k {
            assert(s[a].end_time <= s[b - 1].start_time);
        } else if a == k {
            assert(t + DEFAULT_WIDTH <= s[b - 1].start_time);
        } else {
            assert(s[a - 1].end_time <= s[b - 1].start_time);
        }
    }
}

proof fn lemma_replace_keeps_order<P>(s: Seq<FormationModel<P>>, t: int, i: int, p: FormationModel<P>)
    requires
        well_formed(s),
        first_enclosing(s, t, i),
        update_fits(s, t, p),
    ensures
        well_formed(s.update(i, p)),
{
    let u = s.update(i, p);
    assert forall|a: int| 0 <= a < u.len() implies #[trigger] u[a].start_time < u[a].end_time by {}
    assert forall|a: int, b: int| 0 <= a < b < u.len() implies #[trigger] u[a].end_time
        <= #[trigger] u[b].start_time by {
        if a != i && b != i {
            assert(s[a].end_time <= s[b].start_time);
        }
    }
}

proof fn lemma_entities_keep_order<P>(s: Seq<FormationModel<P>>, i: int, d: Dancer<P>)
    requires
        well_formed(s),
        0 <= i < s.len(),
    ensures
        well_formed(s.update(i, with_entity(s[i], d))),
{
    let u = s.update(i, with_entity(s[i], d));
    assert forall|a: int| 0 <= a < u.len() implies #[trigger] u[a].start_time < u[a].end_time by {
        assert(s[a].start_time < s[a].end_time);
    }
    assert forall|a: int, b: int| 0 <= a < b < u.len() implies #[trigger] u[a].end_time
        <= #[trigger] u[b].start_time by {
        assert(s[a].end_time <= s[b].start_time);
    }
}

/// Index of the first formation with id `id`.
fn find_by_id<P>(f: &Vec<Formation<P>>, id: i32) -> (r: Option<usize>)
    ensures
        match r {
            Some(i) => first_with_id(models(f@), id, i as int),
            None => forall|i: int| 0 <= i < f@.len() ==> #[trigger] f@[i].id != id,
        },
{
    let ghost s = models(f@);
    let mut i: usize = 0;
    while i < f.len()
        invariant
            i <= f@.len(),
            s == models(f@),
            forall|j: int| 0 <= j < i ==> #[trigger] s[j].id != id,
        decreases f.len() - i,
    {
        if f[i].id == id {
            return Some(i);
        }
        i = i + 1;
    }
    proof {
        assert forall|j: int| 0 <= j < f@.len() implies #[trigger] f@[j].id != id by {
            assert(s[j].id == f@[j].id);
        }
    }
    None
}

impl<P: Copy> Timeline<P> {
    /// The timeline of a fresh store: counter 0 and the single keyframe
    /// id 0 over `[0, 500)`, with no audio and nobody on stage.
    pub fn seeded() -> (r: Timeline<P>)
        ensures
            r@ == (TimelineModel { next_id_counter: 0, formations: seq![bootstrap_keyframe::<P>()] }),
            well_formed(r@.formations),
    {
        let mut formations: Vec<Formation<P>> = Vec::new();
        formations.push(
            Formation {
                id: 0,
                audio_track: String::new(),
                start_time: 0,
                end_time: DEFAULT_WIDTH,
                entities: Vec::new(),
            },
        );
        let r = Timeline { next_id_counter: 0, formations };
        assert(r@.formations =~= seq![bootstrap_keyframe::<P>()]);
        r
    }

    /// Draws the next id of the insertion path: the counter goes up by one
    /// and its new value is returned.
    pub fn get_count_id(&mut self) -> (r: i32)
        requires
            old(self).next_id_counter < i32::MAX,
        ensures
            r == old(self).next_id_counter + 1,
            final(self).next_id_counter == r,
            final(self).formations == old(self).formations,
    {
        self.next_id_counter = self.next_id_counter + 1;
        self.next_id_counter
    }

    /// Stores `payload` at `time`. The first keyframe whose range holds `time`
    /// is overwritten by it whole. Failing that, a new keyframe
    /// `[time, time + 500)` with a freshly drawn id and the payload's audio
    /// track and roster goes in just after the predecessor of `time`.
    pub fn update_formation(&mut self, time: i32, payload: Formation<P>) -> (r: UpdateOutcome)
        requires
            (forall|i: int|
                0 <= i < old(self)@.formations.len() ==> !encloses(
                    #[trigger] old(self)@.formations[i],
                    time as int,
                )) ==> old(self).next_id_counter < i32::MAX && time <= i32::MAX - DEFAULT_WIDTH,
        ensures
            match r {
                UpdateOutcome::Replaced(i) => {
                    &&& first_enclosing(old(self)@.formations, time as int, i as int)
                    &&& final(self)@ == (TimelineModel {
                        next_id_counter: old(self).next_id_counter,
                        formations: old(self)@.formations.update(i as int, payload@),
                    })
                },
                UpdateOutcome::Inserted(k) => {
                    &&& !exists|i: int| first_enclosing(old(self)@.formations, time as int, i)
                    &&& insertion_point(old(self)@.formations, time as int, k as int)
                    &&& final(self)@ == (TimelineModel {
                        next_id_counter: (old(self).next_id_counter + 1) as i32,
                        formations: old(self)@.formations.insert(
                            k as int,
                            inserted_keyframe(
                                payload@,
                                old(self).next_id_counter + 1,
                                time as int,
                            ),
                        ),
                    })
                },
            },
            well_formed(old(self)@.formations) && update_fits(
                old(self)@.formations,
                time as int,
                payload@,
            ) ==> well_formed(final(self)@.formations),
    {
        let ghost s = self@.formations;
        match crate::lookup::find_enclosing(&self.formations, time) {
            Some(i) => {
                self.formations.set(i, payload);
                proof {
                    assert(self@.formations =~= s.update(i as int, payload@));
                    if well_formed(s) && update_fits(s, time as int, payload@) {
                        lemma_replace_keeps_order(s, time as int, i as int, payload@);
                    }
                }
                UpdateOutcome::Replaced(i)
            },
            None => {
                assert(forall|i: int| 0 <= i < s.len() ==> !encloses(#[trigger] s[i], time as int))
                    by {
                    assert forall|i: int| 0 <= i < s.len() implies !encloses(
                        #[trigger] s[i],
                        time as int,
                    ) by {
                        assert(s[i] == self.formations@[i]@);
                    }
                }
                let k: usize = match crate::lookup::find_predecessor(&self.formations, time) {
                    Some(p) => {
                        assert(is_predecessor(s, time as int, p as int));
                        assert(p < self.formations.len());
                        p + 1
                    },
                    None => 0,
                };
                proof {
                    if k == 0 {
                        assert forall|j: int| 0 <= j < s.len() implies !(#[trigger] s[j].end_time
                            < time) by {
                            assert(s[j].end_time == self.formations@[j].end_time);
                        }
                    }
                }
                let id = self.get_count_id();
                let f = Formation {
                    id,
                    audio_track: payload.audio_track,
                    start_time: time,
                    end_time: time + DEFAULT_WIDTH,
                    entities: payload.entities,
                };
                let ghost x = f@;
                self.formations.insert(k, f);
                proof {
                    assert(self@.formations =~= s.insert(k as int, x));
                    if well_formed(s) && update_fits(s, time as int, payload@) {
                        lemma_insert_keeps_order(s, time as int, k as int, x);
                    }
                }
                UpdateOutcome::Inserted(k)
            },
        }
    }

    /// Appends a keyframe after the last one, with its roster and audio track,
    /// id one past its id and range `[last.end_time, last.end_time + 500)`.
    /// On an empty timeline the bootstrap keyframe goes in instead.
    pub fn add_formation(&mut self)
        requires
            old(self).formations.len() > 0 ==> old(self).formations@.last().id < i32::MAX
                && old(self).formations@.last().end_time <= i32::MAX - DEFAULT_WIDTH,
        ensures
            final(self).next_id_counter == old(self).next_id_counter,
            final(self)@.formations == old(self)@.formations.push(
                if old(self).formations.len() == 0 {
                    bootstrap_keyframe()
                } else {
                    appended_keyframe(old(self)@.formations.last())
                },
            ),
            well_formed(old(self)@.formations) ==> well_formed(final(self)@.formations),
    {
        let ghost s = self@.formations;
        let n = self.formations.len();
        let f = if n == 0 {
            Formation {
                id: 0,
                audio_track: String::new(),
                start_time: 0,
                end_time: DEFAULT_WIDTH,
                entities: Vec::new(),
            }
        } else {
            let last = &self.formations[n - 1];
            assert(last@ == s.last());
            Formation {
                id: last.id + 1,
                audio_track: last.audio_track.clone(),
                start_time: last.end_time,
                end_time: last.end_time + DEFAULT_WIDTH,
                entities: copy_dancers(&last.entities),
            }
        };
        let ghost x = f@;
        assert(x.audio_track =~= (if n == 0 {
            bootstrap_keyframe::<P>()
        } else {
            appended_keyframe(s.last())
        }).audio_track);
        self.formations.push(f);
        proof {
            assert(self@.formations =~= s.push(x));
            if well_formed(s) {
                let u = s.push(x);
                assert forall|a: int, b: int| 0 <= a < b < u.len() implies #[trigger] u[a].end_time
                    <= #[trigger] u[b].start_time by {
                    if b == s.len() && a < s.len() - 1 {
                        assert(s[a].end_time <= s[s.len() - 1].start_time);
                    }
                }
            }
        }
    }

    /// Appends `dancer`, as given, to the roster of the first formation with
    /// id `formation_id`; `NotFound` when there is none.
    pub fn add_dancer(&mut self, formation_id: i32, dancer: Dancer<P>) -> (r: Result<
        (),
        TimelineError,
    >)
        ensures
            final(self).next_id_counter == old(self).next_id_counter,
            match r {
                Ok(()) => exists|i: int|
                    first_with_id(old(self)@.formations, formation_id, i)
                        && final(self)@.formations == old(self)@.formations.update(
                        i,
                        with_entity(old(self)@.formations[i], dancer),
                    ),
                Err(e) => {
                    &&& e == TimelineError::NotFound(formation_id)
                    &&& forall|i: int|
                        0 <= i < old(self)@.formations.len() ==> #[trigger] old(
                            self,
                        )@.formations[i].id != formation_id
                    &&& final(self)@ == old(self)@
                },
            },
            well_formed(old(self)@.formations) ==> well_formed(final(self)@.formations),
    {
        let ghost s = self@.formations;
        match find_by_id(&self.formations, formation_id) {
            Some(i) => {
                let ghost d = dancer;
                self.formations[i].entities.push(dancer);
                proof {
                    assert(self@.formations =~= s.update(i as int, with_entity(s[i as int], d)));
                    if well_formed(s) {
                        lemma_entities_keep_order(s, i as int, d);
                    }
                }
                Ok(())
            },
            None => {
                proof {
                    assert forall|i: int| 0 <= i < s.len() implies #[trigger] s[i].id
                        != formation_id by {
                        assert(s[i].id == self.formations@[i].id);
                    }
                }
                Err(TimelineError::NotFound(formation_id))
            },
        }
    }

    /// Appends a new entity to the roster of the first formation with id
    /// `formation_id`: id one past the last entity's (0 on an empty roster),
    /// named by that id in decimal, standing at `origin`. `NotFound` when there
    /// is no such formation.
    pub fn add_new_dancer(&mut self, formation_id: i32, origin: P) -> (r: Result<
        (),
        TimelineError,
    >)
        requires
            forall|i: int|
                first_with_id(old(self)@.formations, formation_id, i) ==> next_entity_id(
                    #[trigger] old(self)@.formations[i].entities,
                ) <= i32::MAX,
        ensures
            final(self).next_id_counter == old(self).next_id_counter,
            match r {
                Ok(()) => exists|i: int, d: Dancer<P>|
                    {
                        &&& first_with_id(old(self)@.formations, formation_id, i)
                        &&& d.id == next_entity_id(old(self)@.formations[i].entities)
                        &&& d.name@ == decimal_text(d.id as int)
                        &&& d.position == origin
                        &&& final(self)@.formations == old(self)@.formations.update(
                            i,
                            with_entity(old(self)@.formations[i], d),
                        )
                    },
                Err(e) => {
                    &&& e == TimelineError::NotFound(formation_id)
                    &&& forall|i: int|
                        0 <= i < old(self)@.formations.len() ==> #[trigger] old(
                            self,
                        )@.formations[i].id != formation_id
                    &&& final(self)@ == old(self)@
                },
            },
            well_formed(old(self)@.formations) ==> well_formed(final(self)@.formations),
    {
        let ghost s = self@.formations;
        match find_by_id(&self.formations, formation_id) {
            Some(i) => {
                assert(s[i as int] == self.formations@[i as int]@);
                assert(first_with_id(s, formation_id, i as int));
                let n = self.formations[i].entities.len();
                assert(n > 0 ==> s[i as int].entities.last() == self.formations@[i as int].entities@[n - 1]);
                let id: i32 = if n == 0 {
                    0
                } else {
                    self.formations[i].entities[n - 1].id + 1
                };
                let d = Dancer { id, name: id_text(id), position: origin };
                let ghost gd = d;
                let r = self.add_dancer(formation_id, d);
                proof {
                    assert(first_with_id(s, formation_id, i as int));
                    match r {
                        Ok(()) => {
                            let k = choose|k: int|
                                first_with_id(s, formation_id, k) && self@.formations == s.update(
                                    k,
                                    with_entity(s[k], gd),
                                );
                            assert(k == i as int);
                        },
                        Err(_) => {
                            assert(s[i as int].id == formation_id);
                        },
                    }
                }
                r
            },
            None => {
                proof {
                    assert forall|i: int| 0 <= i < s.len() implies #[trigger] s[i].id
                        != formation_id by {
                        assert(s[i].id == self.formations@[i].id);
                    }
                }
                Err(TimelineError::NotFound(formation_id))
            },
        }
    }
}

} // verus!

use vstd::prelude::*;

use crate::model::{encloses, models, Dancer, Formation, FormationModel, Timeline};

verus! {

/// What a timestamp finds on the timeline.
#[derive(Debug)]
pub enum Lookup<P> {
    /// Before the first keyframe or after the last: nothing to show.
    Absent,
    /// The first keyframe whose range holds the timestamp.
    Exact(Formation<P>),
    /// The timestamp falls in a gap between two keyframes.
    Between(Blend<P>),
}

/// A keyframe synthesized between a predecessor and a successor, with the
/// positions still to be blended.
///
/// `base` has the predecessor's id, audio track, start time and roster, and the
/// successor's end time. `targets[i]` is the successor's position of the entity
/// that has the id of `base.entities[i]`, if the successor has one. The blend
/// factor is `elapsed / gap`, and `gap` is positive.
#[derive(Debug)]
pub struct Blend<P> {
    pub base: Formation<P>,
    pub targets: Vec<Option<P>>,
    pub elapsed: i64,
    pub gap: i64,
}

impl<P: Copy> Blend<P> {
    /// Finishes the blend with `lerp`, called as `lerp(from, to, elapsed, gap)`:
    /// each entity that has a target takes the position `lerp` returns for it,
    /// the others keep theirs. Ids, names and the keyframe's own fields are
    /// those of `base`.
    pub fn resolve<F: Fn(P, P, i64, i64) -> P>(&self, lerp: F) -> (r: Formation<P>)
        requires
            self.base.entities@.len() == self.targets@.len(),
            forall|a: P, b: P| call_requires(lerp, (a, b, self.elapsed, self.gap)),
        ensures
            r.id == self.base.id,
            r.audio_track@ == self.base.audio_track@,
            r.start_time == self.base.start_time,
            r.end_time == self.base.end_time,
            r.entities@.len() == self.base.entities@.len(),
            forall|i: int|
                0 <= i < r.entities@.len() ==> {
                    let e = #[trigger] self.base.entities@[i];
                    &&& r.entities@[i].id == e.id
                    &&& r.entities@[i].name == e.name
                    &&& match self.targets@[i] {
                        Some(q) => call_ensures(
                            lerp,
                            (e.position, q, self.elapsed, self.gap),
                            r.entities@[i].position,
                        ),
                        None => r.entities@[i].position == e.position,
                    }
                },
    {
        let mut entities: Vec<Dancer<P>> = Vec::new();
        let mut i: usize = 0;
        while i < self.base.entities.len()
            invariant
                i <= self.base.entities@.len(),
                self.base.entities@.len() == self.targets@.len(),
                forall|a: P, b: P| call_requires(lerp, (a, b, self.elapsed, self.gap)),
                entities@.len() == i,
                forall|k: int|
                    0 <= k < i ==> {
                        let e = #[trigger] self.base.entities@[k];
                        &&& entities@[k].id == e.id
                        &&& entities@[k].name == e.name
                        &&& match self.targets@[k] {
                            Some(q) => call_ensures(
                                lerp,
                                (e.position, q, self.elapsed, self.gap),
                                entities@[k].position,
                            ),
                            None => entities@[k].position == e.position,
                        }
                    },
            decreases self.base.entities.len() - i,
        {
            let e = &self.base.entities[i];
            let position = match self.targets[i] {
                Some(q) => lerp(e.position, q, self.elapsed, self.gap),
                None => e.position,
            };
            entities.push(Dancer { id: e.id, name: e.name.clone(), position });
            i = i + 1;
        }
        Formation {
            id: self.base.id,
            audio_track: self.base.audio_track.clone(),
            start_time: self.base.start_time,
            end_time: self.base.end_time,
            entities,
        }
    }
}

/// Mathematical value of a lookup result.
pub enum LookupModel<P> {
    Absent,
    Exact(FormationModel<P>),
    Between { base: FormationModel<P>, targets: Seq<Option<P>>, elapsed: int, gap: int },
}

impl<P> View for Lookup<P> {
    type V = LookupModel<P>;

    open spec fn view(&self) -> LookupModel<P> {
        match self {
            Lookup::Absent => LookupModel::Absent,
            Lookup::Exact(f) => LookupModel::Exact(f@),
            Lookup::Between(b) => LookupModel::Between {
                base: b.base@,
                targets: b.targets@,
                elapsed: b.elapsed as int,
                gap: b.gap as int,
            },
        }
    }
}

/// `i` is the first keyframe whose range holds `t`.
pub open spec fn first_enclosing<P>(s: Seq<FormationModel<P>>, t: int, i: int) -> bool {
    &&& 0 <= i < s.len()
    &&& encloses(s[i], t)
    &&& forall|j: int| 0 <= j < i ==> !encloses(#[trigger] s[j], t)
}

/// `i` ends before `t` with the latest end time; among equal end times the
/// last one in order.
pub open spec fn is_predecessor<P>(s: Seq<FormationModel<P>>, t: int, i: int) -> bool {
    &&& 0 <= i < s.len()
    &&& s[i].end_time < t
    &&& forall|j: int|
        0 <= j < s.len() && #[trigger] s[j].end_time < t ==> s[j].end_time < s[i].end_time || (
        s[j].end_time == s[i].end_time && j <= i)
}

/// `i` starts after `t` with the earliest start time; among equal start times
/// the first one in order.
pub open spec fn is_successor<P>(s: Seq<FormationModel<P>>, t: int, i: int) -> bool {
    &&& 0 <= i < s.len()
    &&& s[i].start_time > t
    &&& forall|j: int|
        0 <= j < s.len() && #[trigger] s[j].start_time > t ==> s[i].start_time < s[j].start_time
            || (s[j].start_time == s[i].start_time && i <= j)
}

/// The position of the first entity of `s`, from index `k` on, whose id is `id`.
pub open spec fn position_from<P>(s: Seq<Dancer<P>>, id: i32, k: int) -> Option<P>
    decreases s.len() - k,
{
    if k < 0 || k >= s.len() {
        None
    } else if s[k].id == id {
        Some(s[k].position)
    } else {
        position_from(s, id, k + 1)
    }
}

/// The position of the first entity of `s` whose id is `id`.
pub open spec fn position_of<P>(s: Seq<Dancer<P>>, id: i32) -> Option<P> {
    position_from(s, id, 0)
}

/// The keyframe synthesized from a predecessor and a successor, before blending.
pub open spec fn blend_base<P>(p: FormationModel<P>, n: FormationModel<P>) -> FormationModel<P> {
    FormationModel {
        id: p.id,
        audio_track: p.audio_track,
        start_time: p.start_time,
        end_time: n.end_time,
        entities: p.entities,
    }
}

/// For each entity of the predecessor, the successor's position for its id.
pub open spec fn blend_targets<P>(p: FormationModel<P>, n: FormationModel<P>) -> Seq<Option<P>> {
    p.entities.map_values(|e: Dancer<P>| position_of(n.entities, e.id))
}

/// What a lookup of `t` on the keyframes `s` returns.
pub open spec fn lookup_result<P>(s: Seq<FormationModel<P>>, t: int, r: LookupModel<P>) -> bool {
    if exists|i: int| first_enclosing(s, t, i) {
        exists|i: int| first_enclosing(s, t, i) && r == LookupModel::Exact(s[i])
    } else if (exists|i: int| is_predecessor(s, t, i)) && (exists|j: int| is_successor(s, t, j)) {
        exists|i: int, j: int|
            is_predecessor(s, t, i) && is_successor(s, t, j) && r == (LookupModel::Between {
                base: blend_base(s[i], s[j]),
                targets: blend_targets(s[i], s[j]),
                elapsed: t - s[i].end_time,
                gap: s[j].start_time - s[i].end_time,
            })
    } else {
        r == LookupModel::<P>::Absent
    }
}

proof fn lemma_first_enclosing_unique<P>(s: Seq<FormationModel<P>>, t: int, i: int, j: int)
    requires
        first_enclosing(s, t, i),
        first_enclosing(s, t, j),
    ensures
        i == j,
{
    if i < j {
        assert(!encloses(s[i], t));
    } else if j < i {
        assert(!encloses(s[j], t));
    }
}

proof fn lemma_predecessor_unique<P>(s: Seq<FormationModel<P>>, t: int, i: int, j: int)
    requires
        is_predecessor(s, t, i),
        is_predecessor(s, t, j),
    ensures
        i == j,
{
    assert(s[j].end_time < t);
    assert(s[i].end_time < t);
}

proof fn lemma_successor_unique<P>(s: Seq<FormationModel<P>>, t: int, i: int, j: int)
    requires
        is_successor(s, t, i),
        is_successor(s, t, j),
    ensures
        i == j,
{
    assert(s[j].start_time > t);
    assert(s[i].start_time > t);
}

/// A lookup is a function of the keyframes and the timestamp alone: two
/// lookups of one timestamp on one unchanged timeline give the same result.
pub proof fn lemma_lookup_deterministic<P>(
    s: Seq<FormationModel<P>>,
    t: int,
    a: LookupModel<P>,
    b: LookupModel<P>,
)
    requires
        lookup_result(s, t, a),
        lookup_result(s, t, b),
    ensures
        a == b,
{
    if exists|i: int| first_enclosing(s, t, i) {
        let i = choose|i: int| first_enclosing(s, t, i) && a == LookupModel::Exact(s[i]);
        let j = choose|j: int| first_enclosing(s, t, j) && b == LookupModel::Exact(s[j]);
        lemma_first_enclosing_unique(s, t, i, j);
    } else if (exists|i: int| is_predecessor(s, t, i)) && (exists|j: int| is_successor(s, t, j)) {
        let (i1, j1) = choose|i: int, j: int|
            is_predecessor(s, t, i) && is_successor(s, t, j) && a == (LookupModel::Between {
                base: blend_base(s[i], s[j]),
                targets: blend_targets(s[i], s[j]),
                elapsed: t - s[i].end_time,
                gap: s[j].start_time - s[i].end_time,
            });
        let (i2, j2) = choose|i: int, j: int|
            is_predecessor(s, t, i) && is_successor(s, t, j) && b == (LookupModel::Between {
                base: blend_base(s[i], s[j]),
                targets: blend_targets(s[i], s[j]),
                elapsed: t - s[i].end_time,
                gap: s[j].start_time - s[i].end_time,
            });
        lemma_predecessor_unique(s, t, i1, i2);
        lemma_successor_unique(s, t, j1, j2);
    }
}

/// Index of the first keyframe whose range holds `t`.
pub fn find_enclosing<P>(f: &Vec<Formation<P>>, t: i32) -> (r: Option<usize>)
    ensures
        match r {
            Some(i) => first_enclosing(models(f@), t as int, i as int),
            None => forall|i: int| 0 <= i < f@.len() ==> !encloses(#[trigger] f@[i]@, t as int),
        },
{
    let ghost s = models(f@);
    let mut i: usize = 0;
    while i < f.len()
        invariant
            i <= f@.len(),
            s == models(f@),
            forall|j: int| 0 <= j < i ==> !encloses(#[trigger] s[j], t as int),
        decreases f.len() - i,
    {
        if f[i].start_time <= t && t < f[i].end_time {
            return Some(i);
        }
        i = i + 1;
    }
    proof {
        assert forall|j: int| 0 <= j < f@.len() implies !encloses(#[trigger] f@[j]@, t as int) by {
            assert(s[j] == f@[j]@);
        }
    }
    None
}

/// Index of the predecessor of `t`: the latest end time before `t`.
pub fn find_predecessor<P>(f: &Vec<Formation<P>>, t: i32) -> (r: Option<usize>)
    ensures
        match r {
            Some(i) => is_predecessor(models(f@), t as int, i as int),
            None => forall|i: int| 0 <= i < f@.len() ==> !(#[trigger] f@[i].end_time < t),
        },
{
    let ghost s = models(f@);
    let mut best: Option<usize> = None;
    let mut i: usize = 0;
    while i < f.len()
        invariant
            i <= f@.len(),
            s == models(f@),
            match best {
                Some(b) => b < i && s[b as int].end_time < t && forall|j: int|
                    0 <= j < i && #[trigger] s[j].end_time < t ==> s[j].end_time < s[b as int].end_time
                        || (s[j].end_time == s[b as int].end_time && j <= b),
                None => forall|j: int| 0 <= j < i ==> !(#[trigger] s[j].end_time < t),
            },
        decreases f.len() - i,
    {
        if f[i].end_time < t {
            match best {
                Some(b) => {
                    if f[i].end_time >= f[b].end_time {
                        best = Some(i);
                    }
                },
                None => {
                    best = Some(i);
                },
            }
        }
        i = i + 1;
    }
    proof {
        if best.is_none() {
            assert forall|j: int| 0 <= j < f@.len() implies !(#[trigger] f@[j].end_time < t) by {
                assert(s[j].end_time == f@[j].end_time);
            }
        }
    }
    best
}

/// Index of the successor of `t`: the earliest start time after `t`.
pub fn find_successor<P>(f: &Vec<Formation<P>>, t: i32) -> (r: Option<usize>)
    ensures
        match r {
            Some(i) => is_successor(models(f@), t as int, i as int),
            None => forall|i: int| 0 <= i < f@.len() ==> !(#[trigger] f@[i].start_time > t),
        },
{
    let ghost s = models(f@);
    let mut best: Option<usize> = None;
    let mut i: usize = 0;
    while i < f.len()
        invariant
            i <= f@.len(),
            s == models(f@),
            match best {
                Some(b) => b < i && s[b as int].start_time > t && forall|j: int|
                    0 <= j < i && #[trigger] s[j].start_time > t ==> s[b as int].start_time
                        < s[j].start_time || (s[j].start_time == s[b as int].start_time && b <= j),
                None => forall|j: int| 0 <= j < i ==> !(#[trigger] s[j].start_time > t),
            },
        decreases f.len() - i,
    {
        if f[i].start_time > t {
            match best {
                Some(b) => {
                    if f[i].start_time < f[b].start_time {
                        best = Some(i);
                    }
                },
                None => {
                    best = Some(i);
                },
            }
        }
        i = i + 1;
    }
    proof {
        if best.is_none() {
            assert forall|j: int| 0 <= j < f@.len() implies !(#[trigger] f@[j].start_time > t) by {
                assert(s[j].start_time == f@[j].start_time);
            }
        }
    }
    best
}

/// The position of the first entity of `v` whose id is `id`.
pub fn find_position<P: Copy>(v: &Vec<Dancer<P>>, id: i32) -> (r: Option<P>)
    ensures
        r == position_of(v@, id),
{
    let mut i: usize = 0;
    while i < v.len()
        invariant
            i <= v@.len(),
            position_of(v@, id) == position_from(v@, id, i as int),
        decreases v.len() - i,
    {
        if v[i].id == id {
            return Some(v[i].position);
        }
        i = i + 1;
    }
    None
}

/// The blend plan between keyframes `p` and `n` at time `t`.
fn make_blend<P: Copy>(p: &Formation<P>, n: &Formation<P>, t: i32) -> (r: Blend<P>)
    ensures
        r.base@ == blend_base(p@, n@),
        r.targets@ == blend_targets(p@, n@),
        r.elapsed == t - p.end_time,
        r.gap == n.start_time - p.end_time,
{
    let mut targets: Vec<Option<P>> = Vec::new();
    let mut i: usize = 0;
    while i < p.entities.len()
        invariant
            i <= p.entities@.len(),
            targets@ =~= blend_targets(p@, n@).subrange(0, i as int),
        decreases p.entities.len() - i,
    {
        targets.push(find_position(&n.entities, p.entities[i].id));
        i = i + 1;
    }
    Blend {
        base: Formation {
            id: p.id,
            audio_track: p.audio_track.clone(),
            start_time: p.start_time,
            end_time: n.end_time,
            entities: crate::model::copy_dancers(&p.entities),
        },
        targets,
        elapsed: t as i64 - p.end_time as i64,
        gap: n.start_time as i64 - p.end_time as i64,
    }
}

impl<P: Copy> Timeline<P> {
    /// The keyframe shown at `time`: the first one whose range holds it;
    /// else a blend between the predecessor (latest end before `time`) and the
    /// successor (earliest start after `time`); else nothing.
    pub fn get_current_formation_by_timestamp(&self, time: i32) -> (r: Lookup<P>)
        ensures
            lookup_result(self@.formations, time as int, r@),
            r matches Lookup::Between(b) ==> b.gap > 0 && b.base.entities@.len()
                == b.targets@.len(),
    {
        let ghost s = self@.formations;
        match find_enclosing(&self.formations, time) {
            Some(i) => {
                let r = Lookup::Exact(self.formations[i].duplicate());
                return r;
            },
            None => {},
        }
        assert(!exists|i: int| first_enclosing(s, time as int, i)) by {
            assert forall|i: int| !first_enclosing(s, time as int, i) by {
                if 0 <= i < s.len() {
                    assert(s[i] == self.formations@[i]@);
                }
            }
        }
        let p = find_predecessor(&self.formations, time);
        let n = find_successor(&self.formations, time);
        match (p, n) {
            (Some(i), Some(j)) => {
                let b = make_blend(&self.formations[i], &self.formations[j], time);
                Lookup::Between(b)
            },
            _ => {
                assert(!((exists|i: int| is_predecessor(s, time as int, i)) && (exists|j: int|
                    is_successor(s, time as int, j)))) by {
                    if p.is_none() {
                        assert forall|i: int| !is_predecessor(s, time as int, i) by {
                            if 0 <= i < s.len() {
                                assert(s[i].end_time == self.formations@[i].end_time);
                            }
                        }
                    } else {
                        assert forall|j: int| !is_successor(s, time as int, j) by {
                            if 0 <= j < s.len() {
                                assert(s[j].start_time == self.formations@[j].start_time);
                            }
                        }
                    }
                }
                Lookup::Absent
            },
        }
    }
}

} // verus!

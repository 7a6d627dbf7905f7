use vstd::prelude::*;

verus! {

/// One performer: an id local to its formation, a display name and a stage
/// position. The position type is left to the caller (a pair of coordinates
/// in practice); the timeline only moves positions around and never reads them.
#[derive(Clone, Debug)]
pub struct Dancer<P> {
    pub id: i32,
    pub name: String,
    pub position: P,
}

/// One keyframe: a pose of all performers, valid over `[start_time, end_time)`.
#[derive(Clone, Debug)]
pub struct Formation<P> {
    pub id: i32,
    pub audio_track: String,
    pub start_time: i32,
    pub end_time: i32,
    pub entities: Vec<Dancer<P>>,
}

/// The whole store payload: the id counter of the insertion path and the
/// keyframes in timeline order.
#[derive(Clone, Debug)]
pub struct Timeline<P> {
    pub next_id_counter: i32,
    pub formations: Vec<Formation<P>>,
}

/// Errors of the engine and of the store around it.
#[derive(Clone, Debug)]
pub enum TimelineError {
    /// Creating, reading or writing the backing file failed.
    IoError(String),
    /// The backing file does not hold a timeline.
    ParseError(String),
    /// No formation has the given id.
    NotFound(i32),
    /// The shared guard was poisoned by an earlier failure.
    LockError,
}

/// Mathematical value of a formation.
pub struct FormationModel<P> {
    pub id: i32,
    pub audio_track: Seq<char>,
    pub start_time: i32,
    pub end_time: i32,
    pub entities: Seq<Dancer<P>>,
}

/// Mathematical value of a timeline.
pub struct TimelineModel<P> {
    pub next_id_counter: i32,
    pub formations: Seq<FormationModel<P>>,
}

impl<P> View for Formation<P> {
    type V = FormationModel<P>;

    open spec fn view(&self) -> FormationModel<P> {
        FormationModel {
            id: self.id,
            audio_track: self.audio_track@,
            start_time: self.start_time,
            end_time: self.end_time,
            entities: self.entities@,
        }
    }
}

impl<P> View for Timeline<P> {
    type V = TimelineModel<P>;

    open spec fn view(&self) -> TimelineModel<P> {
        TimelineModel {
            next_id_counter: self.next_id_counter,
            formations: models(self.formations@),
        }
    }
}

/// The values of a sequence of formations.
pub open spec fn models<P>(v: Seq<Formation<P>>) -> Seq<FormationModel<P>> {
    v.map_values(|f: Formation<P>| f@)
}

/// `t` lies in the half-open range of `f`.
pub open spec fn encloses<P>(f: FormationModel<P>, t: int) -> bool {
    f.start_time <= t < f.end_time
}

/// Every keyframe has a non-empty range, and the ranges come in order without
/// overlapping (which also keeps the start times ascending).
pub open spec fn well_formed<P>(s: Seq<FormationModel<P>>) -> bool {
    &&& forall|i: int| 0 <= i < s.len() ==> #[trigger] s[i].start_time < s[i].end_time
    &&& forall|i: int, j: int|
        0 <= i < j < s.len() ==> #[trigger] s[i].end_time <= #[trigger] s[j].start_time
}

impl<P: Copy> Dancer<P> {
    /// A copy equal to `self`.
    pub fn duplicate(&self) -> (r: Dancer<P>)
        ensures
            r == *self,
    {
        Dancer { id: self.id, name: self.name.clone(), position: self.position }
    }
}

impl<P: Copy> Formation<P> {
    /// A copy with the same value.
    pub fn duplicate(&self) -> (r: Formation<P>)
        ensures
            r@ == self@,
    {
        Formation {
            id: self.id,
            audio_track: self.audio_track.clone(),
            start_time: self.start_time,
            end_time: self.end_time,
            entities: copy_dancers(&self.entities),
        }
    }
}

/// A copy of a roster, entity by entity.
pub fn copy_dancers<P: Copy>(v: &Vec<Dancer<P>>) -> (r: Vec<Dancer<P>>)
    ensures
        r@ == v@,
{
    let mut r: Vec<Dancer<P>> = Vec::new();
    let mut i: usize = 0;
    while i < v.len()
        invariant
            i <= v.len(),
            r@ == v@.subrange(0, i as int),
        decreases v.len() - i,
    {
        r.push(v[i].duplicate());
        i = i + 1;
        assert(r@ =~= v@.subrange(0, i as int));
    }
    assert(v@.subrange(0, v.len() as int) =~= v@);
    r
}

} // verus!

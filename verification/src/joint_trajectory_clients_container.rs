use crate::error::Error;
use crate::joint_names::{all_distinct, find_joint, first_index, lemma_first_index, names_of};
use crate::partial_joint_trajectory_client::repeated_at;
use crate::trajectory::{slice_of, TrajectoryPoint};
use vstd::prelude::*;

verus! {

/// The place in the combined ordering at which the joints of sub-client
/// `c` begin: the number of joints of the sub-clients before it.
pub open spec fn offset(dofs: Seq<usize>, c: int) -> int
    decreases c,
{
    if c <= 0 {
        0
    } else {
        offset(dofs, c - 1) + dofs[c - 1]
    }
}

/// The joint names of the first `n` sub-clients, one sub-client after the
/// other.
pub open spec fn combined_names(groups: Seq<Vec<String>>, n: int) -> Seq<Seq<char>>
    decreases n,
{
    if n <= 0 {
        Seq::empty()
    } else {
        combined_names(groups, n - 1) + names_of(groups[n - 1]@)
    }
}

/// The number of joints of each sub-client.
pub open spec fn dofs_of(groups: Seq<Vec<String>>) -> Seq<usize> {
    Seq::new(groups.len(), |c: int| groups[c].len())
}

/// The part of a combined vector that belongs to sub-client `c`.
pub open spec fn part<T>(full: Seq<T>, dofs: Seq<usize>, c: int) -> Seq<T> {
    full.subrange(offset(dofs, c), offset(dofs, c + 1))
}

/// The vectors of the first `n` sub-clients, one after the other.
pub open spec fn combined<T>(parts: Seq<Seq<T>>, n: int) -> Seq<T>
    decreases n,
{
    if n <= 0 {
        Seq::empty()
    } else {
        combined(parts, n - 1) + parts[n - 1]
    }
}

/// The contents of each vector of `vectors`.
pub open spec fn views<T>(vectors: Seq<Vec<T>>) -> Seq<Seq<T>> {
    Seq::new(vectors.len(), |c: int| vectors[c]@)
}

/// The parts of a combined vector, one per sub-client.
pub open spec fn parts_of<T>(full: Seq<T>, dofs: Seq<usize>) -> Seq<Seq<T>> {
    Seq::new(dofs.len(), |c: int| part(full, dofs, c))
}

/// Offsets grow with the sub-client's number.
pub proof fn lemma_offset_grows(dofs: Seq<usize>, c: int, d: int)
    requires
        0 <= c <= d,
    ensures
        0 <= offset(dofs, c) <= offset(dofs, d),
    decreases d,
{
    if c < d {
        lemma_offset_grows(dofs, c, d - 1);
    } else if c > 0 {
        lemma_offset_grows(dofs, c - 1, c - 1);
    }
}

proof fn lemma_combined_len<T>(parts: Seq<Seq<T>>, dofs: Seq<usize>, n: int)
    requires
        0 <= n <= parts.len(),
        parts.len() == dofs.len(),
        forall|c: int| 0 <= c < n ==> (#[trigger] parts[c]).len() == dofs[c],
    ensures
        combined(parts, n).len() == offset(dofs, n),
    decreases n,
{
    if n > 0 {
        lemma_combined_len(parts, dofs, n - 1);
    }
}

proof fn lemma_combined_prefix<T>(parts: Seq<Seq<T>>, m: int, n: int)
    requires
        0 <= m <= n,
    ensures
        combined(parts, m) == combined(parts, n).subrange(0, combined(parts, m).len() as int),
        combined(parts, m).len() <= combined(parts, n).len(),
    decreases n - m,
{
    if m < n {
        lemma_combined_prefix(parts, m, n - 1);
        assert(combined(parts, m) =~= combined(parts, n).subrange(0, combined(parts, m).len() as int));
    } else {
        assert(combined(parts, m) =~= combined(parts, n).subrange(0, combined(parts, m).len() as int));
    }
}

/// The parts of a combined vector, put one after the other again, are the
/// combined vector.
pub proof fn lemma_partition_then_combine<T>(full: Seq<T>, dofs: Seq<usize>)
    requires
        full.len() == offset(dofs, dofs.len() as int),
    ensures
        combined(parts_of(full, dofs), dofs.len() as int) == full,
{
    lemma_parts_prefix(full, dofs, dofs.len() as int);
    assert(full.subrange(0, full.len() as int) =~= full);
}

proof fn lemma_parts_prefix<T>(full: Seq<T>, dofs: Seq<usize>, n: int)
    requires
        0 <= n <= dofs.len(),
        full.len() == offset(dofs, dofs.len() as int),
    ensures
        combined(parts_of(full, dofs), n) == full.subrange(0, offset(dofs, n)),
    decreases n,
{
    lemma_offset_grows(dofs, n, dofs.len() as int);
    if n > 0 {
        lemma_parts_prefix(full, dofs, n - 1);
        lemma_offset_grows(dofs, n - 1, n);
        assert(combined(parts_of(full, dofs), n) =~= full.subrange(0, offset(dofs, n)));
    } else {
        assert(combined(parts_of(full, dofs), n) =~= full.subrange(0, offset(dofs, n)));
    }
}

/// Each sub-client finds its own vector again in the part of the combined
/// vector that belongs to it.
pub proof fn lemma_combine_then_partition<T>(parts: Seq<Seq<T>>, dofs: Seq<usize>, c: int)
    requires
        parts.len() == dofs.len(),
        forall|d: int| 0 <= d < parts.len() ==> (#[trigger] parts[d]).len() == dofs[d],
        0 <= c < parts.len(),
    ensures
        part(combined(parts, parts.len() as int), dofs, c) == parts[c],
{
    let n = parts.len() as int;
    lemma_combined_len(parts, dofs, c);
    lemma_combined_len(parts, dofs, c + 1);
    lemma_combined_prefix(parts, c + 1, n);
    let whole = combined(parts, n);
    let upto = combined(parts, c + 1);
    assert(upto == combined(parts, c) + parts[c]);
    assert forall|i: int| 0 <= i < parts[c].len() implies part(whole, dofs, c)[i] == parts[c][i] by {
        assert(whole.subrange(0, upto.len() as int)[offset(dofs, c) + i] == whole[offset(dofs, c) + i]);
        assert(upto[offset(dofs, c) + i] == parts[c][i]);
    }
    assert(part(whole, dofs, c) =~= parts[c]);
}

/// Presents several sub-clients as one client whose joints are those of
/// the sub-clients, one sub-client after the other.
#[derive(Debug)]
pub struct JointTrajectoryClientsContainer {
    joint_names: Vec<String>,
    dofs: Vec<usize>,
}

impl JointTrajectoryClientsContainer {
    /// The joints of the container, in the combined ordering.
    pub closed spec fn names(&self) -> Seq<Seq<char>> {
        names_of(self.joint_names@)
    }

    /// The number of joints of each sub-client, in the container's order.
    pub closed spec fn dofs(&self) -> Seq<usize> {
        self.dofs@
    }

    /// The container has as many joints as its sub-clients together, and
    /// none of them twice.
    pub open spec fn wf(&self) -> bool {
        &&& self.names().len() == offset(self.dofs(), self.dofs().len() as int)
        &&& all_distinct(self.names())
    }

    #[verifier::type_invariant]
    spec fn inv(&self) -> bool {
        self.wf()
    }

    /// A container for sub-clients with the joints `groups`, one entry
    /// per sub-client. The first joint in the combined ordering that
    /// stands there for the second time is reported.
    pub fn new(groups: &Vec<Vec<String>>) -> (made: Result<Self, Error>)
        ensures
            match made {
                Ok(container) => {
                    &&& container.wf()
                    &&& container.dofs() == dofs_of(groups@)
                    &&& container.names() == combined_names(groups@, groups.len() as int)
                },
                Err(Error::DuplicateJoint { name }) => exists|i: int|
                    {
                        &&& 0 <= i < combined_names(groups@, groups.len() as int).len()
                        &&& all_distinct(combined_names(groups@, groups.len() as int).subrange(0, i))
                        &&& repeated_at(combined_names(groups@, groups.len() as int), i)
                        &&& name@ == #[trigger] combined_names(groups@, groups.len() as int)[i]
                    },
                Err(_) => false,
            },
    {
        let ghost all = combined_names(groups@, groups.len() as int);
        let mut joint_names: Vec<String> = Vec::new();
        let mut dofs: Vec<usize> = Vec::new();
        let mut g: usize = 0;
        assert(names_of(joint_names@) =~= combined_names(groups@, 0));
        while g < groups.len()
            invariant
                g <= groups.len(),
                all == combined_names(groups@, groups.len() as int),
                names_of(joint_names@) == combined_names(groups@, g as int),
                all_distinct(names_of(joint_names@)),
                dofs@ == dofs_of(groups@).subrange(0, g as int),
                joint_names.len() == offset(dofs_of(groups@), g as int),
            decreases groups.len() - g,
        {
            let group = &groups[g];
            let ghost before = names_of(joint_names@);
            let mut i: usize = 0;
            proof {
                lemma_names_prefix(groups@, g + 1, groups.len() as int);
                assert(before =~= before + names_of(group@).subrange(0, 0));
            }
            while i < group.len()
                invariant
                    i <= group.len(),
                    g < groups.len(),
                    group == groups[g as int],
                    all == combined_names(groups@, groups.len() as int),
                    before == combined_names(groups@, g as int),
                    combined_names(groups@, g + 1) == all.subrange(0, combined_names(groups@, g + 1).len() as int),
                    combined_names(groups@, g + 1).len() <= all.len(),
                    names_of(joint_names@) == before + names_of(group@).subrange(0, i as int),
                    all_distinct(names_of(joint_names@)),
                    joint_names.len() == offset(dofs_of(groups@), g as int) + i,
                decreases group.len() - i,
            {
                let ghost here = names_of(joint_names@);
                let ghost place = joint_names.len() as int;
                proof {
                    lemma_first_index(here, group[i as int]@);
                    assert(combined_names(groups@, g + 1) == before + names_of(group@));
                    assert(all[place] == combined_names(groups@, g + 1)[place]);
                    assert(all[place] == group[i as int]@);
                    assert(all.subrange(0, place) =~= here);
                }
                if find_joint(&joint_names, &group[i]).is_some() {
                    proof {
                        let k = first_index(here, group[i as int]@).unwrap();
                        assert(all[k] == here[k]);
                    }
                    return Err(Error::DuplicateJoint { name: group[i].clone() });
                }
                joint_names.push(group[i].clone());
                proof {
                    assert(names_of(joint_names@) =~= here.push(group[i as int]@));
                    assert(names_of(joint_names@) =~= before + names_of(group@).subrange(0, i + 1));
                }
                i += 1;
            }
            proof {
                assert(names_of(group@).subrange(0, group.len() as int) =~= names_of(group@));
                assert(dofs@.push(group.len()) =~= dofs_of(groups@).subrange(0, g + 1));
            }
            dofs.push(group.len());
            g += 1;
        }
        proof {
            assert(dofs@ =~= dofs_of(groups@));
        }
        Ok(JointTrajectoryClientsContainer { joint_names, dofs })
    }

    /// The joints of the container, in the combined ordering.
    pub fn joint_names(&self) -> (names: &Vec<String>)
        ensures
            names_of(names@) == self.names(),
            self.wf(),
    {
        proof {
            use_type_invariant(self);
        }
        &self.joint_names
    }

    /// The number of sub-clients.
    pub fn len(&self) -> (n: usize)
        ensures
            n == self.dofs().len(),
    {
        self.dofs.len()
    }

    /// Cuts a vector in the combined ordering into the vectors of the
    /// sub-clients, in the container's order.
    pub fn partition<T: Copy>(&self, full: &Vec<T>) -> (cut: Result<Vec<Vec<T>>, Error>)
        ensures
            self.wf(),
            match cut {
                Ok(parts) => {
                    &&& full.len() == self.names().len()
                    &&& views(parts@) == parts_of(full@, self.dofs())
                },
                Err(e) => {
                    &&& full.len() != self.names().len()
                    &&& e == (Error::LengthMismatch { expected: self.names().len() as usize, actual: full.len() })
                },
            },
    {
        proof {
            use_type_invariant(self);
        }
        if full.len() != self.joint_names.len() {
            return Err(Error::LengthMismatch { expected: self.joint_names.len(), actual: full.len() });
        }
        let mut parts: Vec<Vec<T>> = Vec::new();
        let mut start: usize = 0;
        let mut c: usize = 0;
        while c < self.dofs.len()
            invariant
                c <= self.dofs.len(),
                self.wf(),
                full.len() == self.names().len(),
                start == offset(self.dofs@, c as int),
                parts.len() == c,
                forall|d: int| 0 <= d < c ==> (#[trigger] parts[d])@ == part(full@, self.dofs@, d),
            decreases self.dofs.len() - c,
        {
            proof {
                lemma_offset_grows(self.dofs@, c + 1, self.dofs.len() as int);
            }
            let end: usize = start + self.dofs[c];
            parts.push(slice_of(full, start, end));
            start = end;
            c += 1;
        }
        assert(views(parts@) =~= parts_of(full@, self.dofs()));
        Ok(parts)
    }

    /// Puts the readings of the sub-clients, given in the container's
    /// order, one after the other. The first reading that has another
    /// number of entries than its sub-client has joints is reported.
    pub fn combine<T: Copy>(&self, readings: &Vec<Vec<T>>) -> (joined: Result<Vec<T>, Error>)
        ensures
            self.wf(),
            match joined {
                Ok(full) => {
                    &&& readings.len() == self.dofs().len()
                    &&& forall|c: int| 0 <= c < readings.len() ==> (#[trigger] readings[c]).len() == self.dofs()[c]
                    &&& full@ == combined(views(readings@), readings.len() as int)
                },
                Err(e) => if readings.len() != self.dofs().len() {
                    e == (Error::LengthMismatch { expected: self.dofs().len() as usize, actual: readings.len() })
                } else {
                    exists|c: int|
                        {
                            &&& 0 <= c < readings.len()
                            &&& forall|d: int| 0 <= d < c ==> (#[trigger] readings[d]).len() == self.dofs()[d]
                            &&& (#[trigger] readings[c]).len() != self.dofs()[c]
                            &&& e == (Error::LengthMismatch { expected: self.dofs()[c], actual: readings[c].len() })
                        }
                },
            },
    {
        proof {
            use_type_invariant(self);
        }
        if readings.len() != self.dofs.len() {
            return Err(Error::LengthMismatch { expected: self.dofs.len(), actual: readings.len() });
        }
        let ghost model = views(readings@);
        let mut full: Vec<T> = Vec::new();
        let mut c: usize = 0;
        while c < readings.len()
            invariant
                c <= readings.len(),
                self.wf(),
                readings.len() == self.dofs.len(),
                model == views(readings@),
                forall|d: int| 0 <= d < c ==> (#[trigger] readings[d]).len() == self.dofs@[d],
                full@ == combined(model, c as int),
            decreases readings.len() - c,
        {
            let reading = &readings[c];
            if reading.len() != self.dofs[c] {
                return Err(Error::LengthMismatch { expected: self.dofs[c], actual: reading.len() });
            }
            let ghost before = full@;
            let mut i: usize = 0;
            while i < reading.len()
                invariant
                    i <= reading.len(),
                    full@ == before + reading@.subrange(0, i as int),
                decreases reading.len() - i,
            {
                full.push(reading[i]);
                assert(full@ =~= before + reading@.subrange(0, i + 1));
                i += 1;
            }
            assert(reading@.subrange(0, reading.len() as int) =~= reading@);
            assert(model[c as int] == reading@);
            c += 1;
        }
        Ok(full)
    }

    /// Cuts a trajectory in the combined ordering into one trajectory per
    /// sub-client: each keeps all points, in their order and with their
    /// times, and of each point the positions of its own joints. The
    /// first point that has another number of positions than the
    /// container has joints is reported.
    pub fn partition_trajectory<T: Copy>(&self, trajectory: &Vec<TrajectoryPoint<T>>) -> (cut: Result<
        Vec<Vec<TrajectoryPoint<T>>>,
        Error,
    >)
        ensures
            self.wf(),
            match cut {
                Ok(parts) => {
                    &&& forall|k: int|
                        0 <= k < trajectory.len() ==> (#[trigger] trajectory[k]).positions.len()
                            == self.names().len()
                    &&& parts.len() == self.dofs().len()
                    &&& forall|c: int|
                        0 <= c < parts.len() ==> is_part_of((#[trigger] parts[c])@, trajectory@, self.dofs(), c)
                },
                Err(e) => exists|k: int|
                    {
                        &&& 0 <= k < trajectory.len()
                        &&& forall|j: int|
                            0 <= j < k ==> (#[trigger] trajectory[j]).positions.len() == self.names().len()
                        &&& (#[trigger] trajectory[k]).positions.len() != self.names().len()
                        &&& e == (Error::LengthMismatch {
                            expected: self.names().len() as usize,
                            actual: trajectory[k].positions.len(),
                        })
                    },
            },
    {
        proof {
            use_type_invariant(self);
        }
        let mut k: usize = 0;
        while k < trajectory.len()
            invariant
                k <= trajectory.len(),
                self.wf(),
                forall|j: int| 0 <= j < k ==> (#[trigger] trajectory[j]).positions.len() == self.names().len(),
            decreases trajectory.len() - k,
        {
            if trajectory[k].positions.len() != self.joint_names.len() {
                return Err(
                    Error::LengthMismatch {
                        expected: self.joint_names.len(),
                        actual: trajectory[k].positions.len(),
                    },
                );
            }
            k += 1;
        }
        assert(self.names().len() == self.joint_names.len());
        let mut parts: Vec<Vec<TrajectoryPoint<T>>> = Vec::new();
        let mut start: usize = 0;
        let mut c: usize = 0;
        while c < self.dofs.len()
            invariant
                c <= self.dofs.len(),
                self.wf(),
                forall|j: int|
                    0 <= j < trajectory.len() ==> (#[trigger] trajectory[j]).positions.len() == self.names().len(),
                self.names().len() <= usize::MAX,
                start == offset(self.dofs@, c as int),
                parts.len() == c,
                forall|d: int| 0 <= d < c ==> is_part_of((#[trigger] parts[d])@, trajectory@, self.dofs@, d),
            decreases self.dofs.len() - c,
        {
            proof {
                lemma_offset_grows(self.dofs@, c + 1, self.dofs.len() as int);
            }
            let end: usize = start + self.dofs[c];
            let mut own: Vec<TrajectoryPoint<T>> = Vec::new();
            let mut k: usize = 0;
            while k < trajectory.len()
                invariant
                    k <= trajectory.len(),
                    c < self.dofs.len(),
                    start == offset(self.dofs@, c as int),
                    end == offset(self.dofs@, c + 1),
                    start <= end <= self.names().len(),
                    forall|j: int|
                        0 <= j < trajectory.len() ==> (#[trigger] trajectory[j]).positions.len()
                            == self.names().len(),
                    own.len() == k,
                    forall|j: int|
                        0 <= j < k ==> {
                            &&& (#[trigger] own[j]).positions@ == part(trajectory[j].positions@, self.dofs@, c as int)
                            &&& own[j].time_from_start == trajectory[j].time_from_start
                        },
                decreases trajectory.len() - k,
            {
                let point = &trajectory[k];
                own.push(
                    TrajectoryPoint {
                        positions: slice_of(&point.positions, start, end),
                        time_from_start: point.time_from_start,
                    },
                );
                k += 1;
            }
            parts.push(own);
            start = end;
            c += 1;
        }
        Ok(parts)
    }
}

/// `own` is the trajectory of sub-client `c` within `trajectory`: the
/// same points with the same times, and of each the positions of the
/// sub-client's joints.
pub open spec fn is_part_of<T>(
    own: Seq<TrajectoryPoint<T>>,
    trajectory: Seq<TrajectoryPoint<T>>,
    dofs: Seq<usize>,
    c: int,
) -> bool {
    &&& own.len() == trajectory.len()
    &&& forall|k: int|
        0 <= k < own.len() ==> {
            &&& (#[trigger] own[k]).positions@ == part(trajectory[k].positions@, dofs, c)
            &&& own[k].time_from_start == trajectory[k].time_from_start
        }
}

/// The outcome of a command to all sub-clients, from the outcomes of the
/// first `n` of them: the first failure, or success where none failed.
pub open spec fn first_failure(outcomes: Seq<Result<(), Error>>, n: int) -> Result<(), Error>
    decreases n,
{
    if n <= 0 {
        Ok(())
    } else {
        match first_failure(outcomes, n - 1) {
            Err(e) => Err(e),
            Ok(_) => outcomes[n - 1],
        }
    }
}

/// A command to all sub-clients succeeds exactly where every sub-client
/// succeeds.
pub proof fn lemma_joined_success(outcomes: Seq<Result<(), Error>>, n: int)
    requires
        0 <= n <= outcomes.len(),
    ensures
        first_failure(outcomes, n) is Ok <==> forall|c: int| 0 <= c < n ==> (#[trigger] outcomes[c]) is Ok,
    decreases n,
{
    if n > 0 {
        lemma_joined_success(outcomes, n - 1);
    }
}

/// Joins the outcomes of the sub-clients, given in the order in which they
/// were observed, into the outcome of the container's command: the first
/// failure, or success where every sub-client succeeded. Every outcome is
/// taken in; none is left out after a failure.
pub fn join_outcomes(outcomes: Vec<Result<(), Error>>) -> (joined: Result<(), Error>)
    ensures
        joined == first_failure(outcomes@, outcomes.len() as int),
{
    let ghost all = outcomes@;
    let mut rest = outcomes;
    let mut later: Result<(), Error> = Ok(());
    proof {
        match first_failure(all, all.len() as int) {
            Ok(unit) => {
                assert(unit == ());
            },
            Err(_) => {},
        }
    }
    while rest.len() > 0
        invariant
            rest.len() <= all.len(),
            rest@ == all.subrange(0, rest.len() as int),
            first_failure(all, all.len() as int) == (match first_failure(all, rest.len() as int) {
                Err(e) => Err(e),
                Ok(_) => later,
            }),
        decreases rest.len(),
    {
        let ghost m = rest.len() as int;
        let last = rest.pop();
        assert(last == Some(all[m - 1]));
        match last {
            Some(Err(e)) => {
                later = Err(e);
            },
            _ => {},
        }
    }
    later
}

proof fn lemma_names_prefix(groups: Seq<Vec<String>>, m: int, n: int)
    requires
        0 <= m <= n,
    ensures
        combined_names(groups, m) == combined_names(groups, n).subrange(
            0,
            combined_names(groups, m).len() as int,
        ),
        combined_names(groups, m).len() <= combined_names(groups, n).len(),
    decreases n - m,
{
    if m < n {
        lemma_names_prefix(groups, m, n - 1);
    }
    assert(combined_names(groups, m) =~= combined_names(groups, n).subrange(
        0,
        combined_names(groups, m).len() as int,
    ));
}

} // verus!

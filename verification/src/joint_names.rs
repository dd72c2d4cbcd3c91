use vstd::prelude::*;

verus! {

/// The joint names of `names` as sequences of characters.
pub open spec fn names_of(names: Seq<String>) -> Seq<Seq<char>> {
    Seq::new(names.len(), |i: int| names[i]@)
}

/// No name occurs twice in `names`.
pub open spec fn all_distinct(names: Seq<Seq<char>>) -> bool {
    forall|i: int, j: int| 0 <= i < j < names.len() ==> names[i] != names[j]
}

/// `index` is the first place at which `name` stands in `names`.
pub open spec fn is_first_at(names: Seq<Seq<char>>, name: Seq<char>, index: int) -> bool {
    &&& 0 <= index < names.len()
    &&& names[index] == name
    &&& forall|j: int| 0 <= j < index ==> names[j] != name
}

/// The first place at which `name` stands in `names`, if it stands there.
pub open spec fn first_index(names: Seq<Seq<char>>, name: Seq<char>) -> Option<int>
    decreases names.len(),
{
    if names.len() == 0 {
        None
    } else if names[0] == name {
        Some(0)
    } else {
        match first_index(names.drop_first(), name) {
            Some(k) => Some(k + 1),
            None => None,
        }
    }
}

/// `first_index` finds the first occurrence, and finds none only where
/// there is none.
pub proof fn lemma_first_index(names: Seq<Seq<char>>, name: Seq<char>)
    ensures
        match first_index(names, name) {
            Some(k) => is_first_at(names, name, k),
            None => forall|j: int| 0 <= j < names.len() ==> names[j] != name,
        },
    decreases names.len(),
{
    if names.len() > 0 && names[0] != name {
        let rest = names.drop_first();
        lemma_first_index(rest, name);
        match first_index(rest, name) {
            Some(k) => {
                assert(names[k + 1] == rest[k]);
                assert forall|j: int| 0 <= j < k + 1 implies names[j] != name by {
                    if j > 0 {
                        assert(names[j] == rest[j - 1]);
                    }
                }
            },
            None => {
                assert forall|j: int| 0 <= j < names.len() implies names[j] != name by {
                    if j > 0 {
                        assert(names[j] == rest[j - 1]);
                    }
                }
            },
        }
    }
}

/// Looks `name` up in `names` and returns the first index at which it
/// stands.
pub fn find_joint(names: &Vec<String>, name: &String) -> (found: Option<usize>)
    ensures
        match found {
            Some(k) => {
                &&& is_first_at(names_of(names@), name@, k as int)
                &&& first_index(names_of(names@), name@) == Some(k as int)
            },
            None => {
                &&& forall|j: int| 0 <= j < names.len() ==> names_of(names@)[j] != name@
                &&& first_index(names_of(names@), name@).is_none()
            },
        },
{
    let ghost model = names_of(names@);
    let mut i: usize = 0;
    while i < names.len()
        invariant
            i <= names.len(),
            model == names_of(names@),
            forall|j: int| 0 <= j < i ==> model[j] != name@,
        decreases names.len() - i,
    {
        if names[i] == *name {
            proof {
                lemma_first_index(model, name@);
                assert(model[i as int] == name@);
            }
            return Some(i);
        }
        i += 1;
    }
    proof {
        lemma_first_index(model, name@);
    }
    None
}

/// The vector that `copy_joint_positions` leaves in `to`: the entry of
/// each joint of `to_names` that `from_names` has too is taken from `from`,
/// at the first index at which `from_names` has that joint; every other
/// entry stays.
pub open spec fn copied<T>(
    from_names: Seq<Seq<char>>,
    from: Seq<T>,
    to_names: Seq<Seq<char>>,
    to: Seq<T>,
) -> Seq<T> {
    Seq::new(
        to.len(),
        |i: int|
            if i < to_names.len() {
                match first_index(from_names, to_names[i]) {
                    Some(k) => if k < from.len() { from[k] } else { to[i] },
                    None => to[i],
                }
            } else {
                to[i]
            },
    )
}

/// Carries joint values from one joint ordering into another: each joint
/// of `to_names` that `from_names` has too receives the value that `from`
/// holds for it. Joints that `from_names` lacks keep their value in `to`.
pub fn copy_joint_positions<T: Copy>(
    from_names: &Vec<String>,
    from: &Vec<T>,
    to_names: &Vec<String>,
    to: &mut Vec<T>,
)
    ensures
        final(to)@ == copied(names_of(from_names@), from@, names_of(to_names@), old(to)@),
{
    let ghost before = to@;
    let ghost goal = copied(names_of(from_names@), from@, names_of(to_names@), before);
    let mut i: usize = 0;
    while i < to_names.len() && i < to.len()
        invariant
            to@.len() == before.len(),
            goal == copied(names_of(from_names@), from@, names_of(to_names@), before),
            forall|j: int| 0 <= j < i && j < to@.len() ==> to@[j] == goal[j],
            forall|j: int| i <= j < to@.len() ==> to@[j] == before[j],
        decreases to_names.len() - i,
    {
        match find_joint(from_names, &to_names[i]) {
            Some(k) => {
                if k < from.len() {
                    to.set(i, from[k]);
                }
            },
            None => {},
        }
        i += 1;
    }
    assert(to@ =~= goal);
}

} // verus!

//! The semantics of the elementary Boolean link functions: the
//! probability that an element is ON at the next step, given the full
//! current state, as an exact numerator over the denominator 2.

use vstd::prelude::*;
use crate::bitwise::count_set_bits;
use crate::bitwise::indices_of_mask;
use crate::sif::LinkType;
use crate::sif::SifError;

verus! {

/// The number of conditions each link kind takes.
pub open spec fn spec_link_arity_ok(link: LinkType, size: nat) -> bool {
    match link {
        LinkType::COPY => size == 1,
        LinkType::NOT => size == 1,
        LinkType::AND => size == 2,
        LinkType::OR => size == 2,
        LinkType::XOR => size == 2,
        LinkType::ANY => size >= 1,
        LinkType::ALL => size >= 1,
        LinkType::EVEN => size >= 1,
        LinkType::ODD => size >= 1,
        LinkType::NOISY => size >= 1,
    }
}

/// The probability that the element is ON at the next step given the
/// current joint state `env`, as a numerator over the denominator 2:
/// 0 for OFF, 2 for ON, and 1 for the unbiased coin of `NOISY`.
pub open spec fn spec_link_on_num(link: LinkType, env: u64, mask: u64) -> u64 {
    match link {
        LinkType::COPY => if env & mask != 0 { 2u64 } else { 0u64 },
        LinkType::NOT => if env & mask == 0 { 2u64 } else { 0u64 },
        LinkType::AND => if env & mask == mask { 2u64 } else { 0u64 },
        LinkType::OR => if env & mask != 0 { 2u64 } else { 0u64 },
        LinkType::XOR => if indices_of_mask(env & mask, 64).len() == 1 { 2u64 } else { 0u64 },
        LinkType::ANY => if env & mask != 0 { 2u64 } else { 0u64 },
        LinkType::ALL => if env & mask == mask { 2u64 } else { 0u64 },
        LinkType::EVEN => if indices_of_mask(env & mask, 64).len() % 2 == 0 { 2u64 } else { 0u64 },
        LinkType::ODD => if indices_of_mask(env & mask, 64).len() % 2 == 1 { 2u64 } else { 0u64 },
        LinkType::NOISY => 1u64,
    }
}

/// Evaluates a link function on the current joint state: twice the
/// probability that the element comes ON.
pub fn link_on_num(link: &LinkType, env: u64, mask: u64) -> (r: u64)
    ensures
        r == spec_link_on_num(*link, env, mask),
        r <= 2,
{
    match link {
        LinkType::COPY => if env & mask != 0 { 2 } else { 0 },
        LinkType::NOT => if env & mask == 0 { 2 } else { 0 },
        LinkType::AND => if env & mask == mask { 2 } else { 0 },
        LinkType::OR => if env & mask != 0 { 2 } else { 0 },
        LinkType::XOR => if count_set_bits(env & mask) == 1 { 2 } else { 0 },
        LinkType::ANY => if env & mask != 0 { 2 } else { 0 },
        LinkType::ALL => if env & mask == mask { 2 } else { 0 },
        LinkType::EVEN => if count_set_bits(env & mask) % 2 == 0 { 2 } else { 0 },
        LinkType::ODD => if count_set_bits(env & mask) % 2 == 1 { 2 } else { 0 },
        LinkType::NOISY => 1,
    }
}

/// Validates that a link kind was given a number of conditions it
/// takes: the kind itself is the function, so it is handed back.
pub fn get_link_fn(link: &LinkType, size: usize) -> (r: Result<LinkType, SifError>)
    ensures
        (r is Ok) == spec_link_arity_ok(*link, size as nat),
        r matches Ok(l) ==> l == *link,
        r matches Err(e) ==> e == SifError::InvalidConditionSize,
{
    let ok = match link {
        LinkType::COPY => size == 1,
        LinkType::NOT => size == 1,
        LinkType::AND => size == 2,
        LinkType::OR => size == 2,
        LinkType::XOR => size == 2,
        LinkType::ANY => size > 0,
        LinkType::ALL => size > 0,
        LinkType::EVEN => size > 0,
        LinkType::ODD => size > 0,
        LinkType::NOISY => size > 0,
    };
    if ok {
        Ok(*link)
    } else {
        Err(SifError::InvalidConditionSize)
    }
}

} // verus!

verus! {

use crate::bitwise::generate_mask;
use crate::bitwise::indices_below;
use crate::bitwise::mask_of_indices;
use crate::sif::LinkInfo;

/// The index of the first line defining `name`, searching from `i` on;
/// negative when no line defines it.
pub open spec fn spec_find_element(infos: Seq<LinkInfo>, name: Seq<char>, i: int) -> int
    decreases infos.len() - i,
{
    if i < 0 || i >= infos.len() {
        -1
    } else if infos[i].element@ == name {
        i
    } else {
        spec_find_element(infos, name, i + 1)
    }
}

/// Two lines define the same element name.
pub open spec fn spec_has_duplicate(infos: Seq<LinkInfo>) -> bool {
    exists|i: int, j: int| 0 <= i < j < infos.len() && infos[i].element@ == infos[j].element@
}

/// Every condition of line `i` names an element some line defines.
pub open spec fn spec_info_resolvable(infos: Seq<LinkInfo>, i: int) -> bool {
    forall|k: int| 0 <= k < infos[i].condition@.len() ==> spec_find_element(
        infos,
        (#[trigger] infos[i].condition@[k])@,
        0,
    ) >= 0
}

/// The mask of the element indices that line `i`'s conditions resolve
/// to.
pub open spec fn spec_resolved_mask(infos: Seq<LinkInfo>, i: int) -> u64 {
    mask_of_indices(
        infos[i].condition@.map_values(|c: String| spec_find_element(infos, c@, 0) as usize),
    )
}

/// Finds the first line that defines `name`.
fn find_element_index(infos: &Vec<LinkInfo>, name: &String) -> (r: Option<usize>)
    ensures
        spec_find_element(infos@, name@, 0) >= 0 ==> r == Some(
            spec_find_element(infos@, name@, 0) as usize,
        ),
        spec_find_element(infos@, name@, 0) < 0 ==> r is None,
        r matches Some(x) ==> x < infos@.len(),
{
    let n = infos.len();
    let mut j: usize = 0;
    while j < n
        invariant
            j <= n == infos@.len(),
            spec_find_element(infos@, name@, 0) == spec_find_element(infos@, name@, j as int),
        decreases n - j,
    {
        if infos[j].element.eq(name) {
            proof {
                assert(spec_find_element(infos@, name@, j as int) == j);
            }
            return Some(j);
        }
        j = j + 1;
    }
    None
}

/// Resolves every line of a network definition into its link kind and
/// the mask of the element indices it conditions on. Fails with
/// `DuplicateElement` exactly when two lines define the same name;
/// otherwise fails when a condition names no line, or when a link kind
/// was given a number of conditions it does not take; succeeds exactly
/// when none of these holds.
pub fn get_link_fns(infos: &Vec<LinkInfo>) -> (r: Result<Vec<(LinkType, u64)>, SifError>)
    requires
        infos@.len() <= 64,
    ensures
        (r is Ok) == (!spec_has_duplicate(infos@) && (forall|i: int| 0 <= i < infos@.len()
            ==> spec_info_resolvable(infos@, i)) && (forall|i: int| 0 <= i < infos@.len()
            ==> spec_link_arity_ok(
            (#[trigger] infos@[i]).link_type,
            infos@[i].condition@.len(),
        ))),
        r matches Ok(fns) ==> fns@.len() == infos@.len(),
        r matches Ok(fns) ==> forall|i: int| 0 <= i < fns@.len() ==> (#[trigger] fns@[i]).0
            == infos@[i].link_type && fns@[i].1 == spec_resolved_mask(infos@, i),
        (r == Err::<Vec<(LinkType, u64)>, SifError>(SifError::DuplicateElement))
            == spec_has_duplicate(infos@),
        r == Err::<Vec<(LinkType, u64)>, SifError>(SifError::UndefinedReference)
            ==> exists|i: int| 0 <= i < infos@.len() && !spec_info_resolvable(infos@, i),
        r == Err::<Vec<(LinkType, u64)>, SifError>(SifError::InvalidConditionSize)
            ==> exists|i: int| 0 <= i < infos@.len() && !spec_link_arity_ok(
            (#[trigger] infos@[i]).link_type,
            infos@[i].condition@.len(),
        ),
{
    let n = infos.len();
    let mut i: usize = 0;
    while i < n
        invariant
            i <= n == infos@.len(),
            forall|a: int, b: int| 0 <= a < b < i ==> infos@[a].element@ != infos@[b].element@,
        decreases n - i,
    {
        let mut j: usize = 0;
        while j < i
            invariant
                j <= i < n == infos@.len(),
                forall|a: int, b: int| 0 <= a < b < i ==> infos@[a].element@
                    != infos@[b].element@,
                forall|a: int| 0 <= a < j ==> infos@[a].element@ != infos@[i as int].element@,
            decreases i - j,
        {
            if infos[j].element.eq(&infos[i].element) {
                proof {
                    assert(spec_has_duplicate(infos@));
                }
                return Err(SifError::DuplicateElement);
            }
            j = j + 1;
        }
        i = i + 1;
    }

    let mut fns: Vec<(LinkType, u64)> = Vec::new();
    let mut i: usize = 0;
    while i < n
        invariant
            i <= n == infos@.len() <= 64,
            !spec_has_duplicate(infos@),
            fns@.len() == i,
            forall|a: int| 0 <= a < i ==> spec_info_resolvable(infos@, a),
            forall|a: int| 0 <= a < i ==> spec_link_arity_ok(
                (#[trigger] infos@[a]).link_type,
                infos@[a].condition@.len(),
            ),
            forall|a: int| 0 <= a < i ==> (#[trigger] fns@[a]).0 == infos@[a].link_type
                && fns@[a].1 == spec_resolved_mask(infos@, a),
        decreases n - i,
    {
        let info = &infos[i];
        let csize = info.condition.len();
        let mut indices: Vec<usize> = Vec::new();
        let mut k: usize = 0;
        while k < csize
            invariant
                k <= csize == info.condition@.len(),
                info == &infos@[i as int],
                i < n == infos@.len() <= 64,
                !spec_has_duplicate(infos@),
                indices@.len() == k,
                forall|x: int| 0 <= x < k ==> spec_find_element(
                    infos@,
                    (#[trigger] info.condition@[x])@,
                    0,
                ) >= 0,
                forall|x: int| 0 <= x < k ==> indices@[x] == spec_find_element(
                    infos@,
                    (#[trigger] info.condition@[x])@,
                    0,
                ) as usize,
                indices_below(indices@, 64),
            decreases csize - k,
        {
            let name = &info.condition[k];
            match find_element_index(infos, name) {
                Some(x) => {
                    proof {
                        assert(name@ == info.condition@[k as int]@);
                        assert(spec_find_element(infos@, name@, 0) >= 0);
                        assert(x == spec_find_element(infos@, name@, 0) as usize);
                    }
                    indices.push(x);
                    proof {
                        assert(indices@[k as int] == spec_find_element(
                            infos@,
                            info.condition@[k as int]@,
                            0,
                        ) as usize);
                    }
                },
                None => {
                    proof {
                        assert(!spec_info_resolvable(infos@, i as int));
                    }
                    return Err(SifError::UndefinedReference);
                },
            }
            k = k + 1;
        }
        let link = match get_link_fn(&info.link_type, csize) {
            Ok(l) => l,
            Err(_) => {
                return Err(SifError::InvalidConditionSize);
            },
        };
        let mask = generate_mask(&indices);
        proof {
            assert(indices@ =~= info.condition@.map_values(
                |c: String| spec_find_element(infos@, c@, 0) as usize,
            ));
        }
        fns.push((link, mask));
        i = i + 1;
    }
    Ok(fns)
}

} // verus!

//! The host's network interfaces, as the kernel lists them under
//! `/sys/class/net`.
use vstd::prelude::*;

use crate::text::{
    lemma_text_le_total, lemma_text_le_transitive, text_equals, text_le, text_less_or_equal,
    trim, trimmed,
};

verus! {

broadcast use vstd::seq_lib::group_to_multiset_ensures;

/// A network interface: its name, whether it is up, and its hardware
/// address when the kernel gives one.
#[derive(Debug, Clone)]
pub struct NetworkInterface {
    pub name: String,
    pub is_up: bool,
    pub mac_address: Option<String>,
}

/// Whether an interface's `operstate` file says it is up: its contents,
/// trimmed, are `up`.
pub open spec fn operstate_up(contents: Seq<char>) -> bool {
    trimmed(contents) == "up"@
}

/// Only the state `up`, around which white space does not count, means an
/// interface is up; any other state (`down`, `unknown`, `dormant`, ...)
/// means it is not.
pub proof fn lemma_only_up_is_up(contents: Seq<char>)
    ensures
        operstate_up(contents) ==> trimmed(contents) == "up"@,
        trimmed(contents) != "up"@ ==> !operstate_up(contents),
        trimmed(contents) == "up"@ ==> operstate_up(contents),
{
}

/// Reads an interface's `operstate` file.
pub fn operstate_is_up(contents: &str) -> (r: bool)
    ensures
        r == operstate_up(contents@),
        r <==> trimmed(contents@) == "up"@,
{
    let state = trim(contents);
    text_equals(state.as_str(), "up")
}

/// The interface described by the files of its directory: its name, the
/// contents of `operstate` and of `address`, each when it could be read. An
/// interface whose state cannot be read counts as down; its address is the
/// trimmed contents of `address`.
pub fn interface_from_sysfs(name: String, operstate: Option<String>, address: Option<String>) -> (r:
    NetworkInterface)
    ensures
        r.name == name,
        r.is_up == (operstate matches Some(s) && operstate_up(s@)),
        r.is_up <==> (operstate matches Some(s) && trimmed(s@) == "up"@),
        address is None ==> r.mac_address is None,
        address matches Some(a) ==> (r.mac_address matches Some(m) && m@ == trimmed(a@)),
{
    let is_up = match &operstate {
        Some(state) => operstate_is_up(state.as_str()),
        None => false,
    };
    let mac_address = match &address {
        Some(contents) => Some(trim(contents.as_str())),
        None => None,
    };
    NetworkInterface { name, is_up, mac_address }
}

/// Whether interfaces are in order of their names.
pub open spec fn names_ascending(interfaces: Seq<NetworkInterface>) -> bool {
    forall|i: int, j: int|
        0 <= i <= j < interfaces.len() ==> text_le(interfaces[i].name@, interfaces[j].name@)
}

/// Where an interface goes in a list ordered by name: after every
/// interface whose name comes no later than its own.
pub open spec fn name_insert_position(sorted: Seq<NetworkInterface>, item: NetworkInterface) -> int
    decreases sorted.len(),
{
    if sorted.len() == 0 || text_le(sorted.last().name@, item.name@) {
        sorted.len() as int
    } else {
        name_insert_position(sorted.drop_last(), item)
    }
}

/// The interfaces in order of their names, those of equal names in their
/// given order: each is placed, in turn, after the ones placed before it
/// whose names come no later than its own.
pub open spec fn sorted_by_name(interfaces: Seq<NetworkInterface>) -> Seq<NetworkInterface>
    decreases interfaces.len(),
{
    if interfaces.len() == 0 {
        Seq::empty()
    } else {
        let before = sorted_by_name(interfaces.drop_last());
        before.insert(name_insert_position(before, interfaces.last()), interfaces.last())
    }
}

/// Sorts interfaces by name. Interfaces of equal names keep their order.
pub fn sort_interfaces(interfaces: Vec<NetworkInterface>) -> (sorted: Vec<NetworkInterface>)
    ensures
        sorted@ == sorted_by_name(interfaces@),
        names_ascending(sorted@),
        sorted@.to_multiset() == interfaces@.to_multiset(),
        sorted@.len() == interfaces@.len(),
{
    let n = interfaces.len();
    let mut sorted: Vec<NetworkInterface> = Vec::new();
    let mut rest = interfaces;
    let ghost input = rest@;
    let mut i: usize = 0;
    assert(input.take(0) =~= Seq::<NetworkInterface>::empty());
    assert(input.skip(0) =~= input);
    while i < n
        invariant
            n == input.len(),
            i <= n,
            rest@.len() + i == n,
            rest@ == input.skip(i as int),
            names_ascending(sorted@),
            sorted@.to_multiset() == input.take(i as int).to_multiset(),
            sorted@ == sorted_by_name(input.take(i as int)),
        decreases n - i,
    {
        let ghost rest_before = rest@;
        let item = rest.remove(0);
        assert(item == input[i as int]);
        assert(rest@ =~= input.skip(i + 1));
        let mut j: usize = sorted.len();
        assert(sorted@.take(j as int) =~= sorted@);
        while j > 0 && !text_less_or_equal(sorted[j - 1].name.as_str(), item.name.as_str())
            invariant
                j <= sorted@.len(),
                name_insert_position(sorted@, item) == name_insert_position(
                    sorted@.take(j as int),
                    item,
                ),
                forall|k: int|
                    j <= k < sorted@.len() ==> !text_le(sorted@[k].name@, item.name@),
            decreases j,
        {
            assert(sorted@.take(j as int).drop_last() =~= sorted@.take(j - 1));
            j = j - 1;
        }
        let ghost before = sorted@;
        assert(name_insert_position(before, item) == j);
        proof {
            assert forall|k: int| j <= k < before.len() implies text_le(
                item.name@,
                #[trigger] before[k].name@,
            ) by {
                lemma_text_le_total(item.name@, before[k].name@);
            }
        }
        sorted.insert(j, item);
        proof {
            before.insert_ensures(j as int, item);
            assert forall|a: int, b: int| 0 <= a <= b < sorted@.len() implies text_le(
                sorted@[a].name@,
                sorted@[b].name@,
            ) by {
                lemma_text_le_total(sorted@[a].name@, sorted@[b].name@);
                if a == b {
                } else if a < j && b < j {
                    assert(sorted@[a] == before[a] && sorted@[b] == before[b]);
                } else if a < j && b == j {
                    assert(sorted@[a] == before[a]);
                    assert(text_le(before[a].name@, before[j - 1].name@));
                    lemma_text_le_transitive(before[a].name@, before[j - 1].name@, item.name@);
                } else if a < j {
                    assert(sorted@[a] == before[a]);
                    assert(sorted@[b] == before[b - 1]);
                    assert(text_le(before[a].name@, before[j - 1].name@));
                    assert(text_le(before[j - 1].name@, item.name@));
                    assert(text_le(item.name@, before[b - 1].name@));
                    lemma_text_le_transitive(before[a].name@, before[j - 1].name@, item.name@);
                    lemma_text_le_transitive(before[a].name@, item.name@, before[b - 1].name@);
                } else if a == j {
                    assert(sorted@[b] == before[b - 1]);
                } else {
                    assert(sorted@[a] == before[a - 1] && sorted@[b] == before[b - 1]);
                }
            }
            assert(input.take(i + 1) =~= input.take(i as int).push(item));
            assert(input.take(i + 1).drop_last() =~= input.take(i as int));
        }
        i = i + 1;
    }
    assert(input.take(n as int) =~= input);
    assert(sorted@.to_multiset().len() == input.to_multiset().len());
    sorted
}

} // verus!

//! Framing of safetensors files: eight bytes with the length of the header, the
//! header, and the tensor data.
use vstd::prelude::*;
use vstd::string::*;

use crate::bytes::get_le8;
#[allow(unused_imports)]
use crate::bytes::read8;
use crate::config::parse_json;
#[allow(unused_imports)]
use crate::config::{json_of, parsed, Json};
use crate::text::same;

verus! {

/// The length of the header of a file of these bytes, if the file holds it whole.
pub open spec fn header_len_of(file: Seq<u8>) -> Option<int> {
    if file.len() >= 8 && read8(file, 0) <= file.len() - 8 {
        Some(read8(file, 0) as int)
    } else {
        None
    }
}

/// The length of the header, which stands at byte 8; `None` where the file is too
/// short to hold it.
pub fn header_len(file: &[u8]) -> (r: Option<usize>)
    ensures
        match r {
            Some(n) => header_len_of(file@) == Some(n as int) && 8 + n <= file@.len(),
            None => header_len_of(file@) is None,
        },
        match r {
            Some(n) => 8 + n <= file@.len() && n == read8(file@, 0),
            None => file@.len() < 8 || 8 + read8(file@, 0) > file@.len(),
        },
{
    let len: usize = file.len();
    if len < 8 {
        return None;
    }
    let n: u64 = get_le8(file, 0);
    if n <= (len - 8) as u64 {
        Some(n as usize)
    } else {
        None
    }
}

/// Whether an entry of the header describes a tensor; the one that does not holds
/// free metadata.
pub fn is_tensor_entry(key: &str) -> (r: bool)
    ensures
        r == (key@ != "__metadata__"@),
{
    !same(key, "__metadata__")
}

/// Where the data of a tensor stands in the file, from its offsets behind the
/// header; `None` where it does not lie within the file.
pub fn tensor_range(header: usize, offsets: (usize, usize), len: usize) -> (r: Option<
    (usize, usize),
>)
    ensures
        match r {
            Some(p) => p.0 == 8 + header + offsets.0 && p.1 == 8 + header + offsets.1 && p.0 <= p.1
                <= len,
            None => offsets.0 > offsets.1 || 8 + header + offsets.1 > len,
        },
{
    if len < 8 || header > len - 8 {
        return None;
    }
    let room: usize = len - 8 - header;
    if offsets.0 > offsets.1 || offsets.1 > room {
        return None;
    }
    Some((8 + header + offsets.0, 8 + header + offsets.1))
}

/// The members are those of an object, each once, in some order.
pub open spec fn are_members(
    members: Seq<(String, serde_json::Value)>,
    map: Map<Seq<char>, Json>,
) -> bool {
    &&& forall|i: int, j: int|
        #![trigger members[i], members[j]]
        0 <= i < j < members.len() ==> members[i].0@ != members[j].0@
    &&& forall|i: int|
        #![trigger members[i]]
        0 <= i < members.len() ==> map.dom().contains(members[i].0@) && map[members[i].0@]
            == json_of(members[i].1)
    &&& forall|key: Seq<char>| #[trigger]
        map.dom().contains(key) ==> has_member(members, key)
}

/// A member with this key is there.
pub open spec fn has_member(members: Seq<(String, serde_json::Value)>, key: Seq<char>) -> bool {
    exists|i: int| 0 <= i < members.len() && (#[trigger] members[i]).0@ == key
}

/// Calls `serde_json::Map::into_iter` on the map of an object: every member is handed
/// out once, with its key, and nothing is said of the order. Any other value has no
/// members.
#[verifier::external_body]
fn into_members(v: serde_json::Value) -> (r: Option<Vec<(String, serde_json::Value)>>)
    ensures
        match r {
            Some(members) => match json_of(v) {
                Json::Object(map) => are_members(members@, map),
                _ => false,
            },
            None => !(json_of(v) is Object),
        },
{
    match v {
        serde_json::Value::Object(map) => Some(map.into_iter().collect()),
        _ => None,
    }
}

/// The members of a header that describe tensors: of an object all but the one with
/// the free metadata, and none of any other value.
pub open spec fn tensor_members(j: Json) -> Map<Seq<char>, Json> {
    match j {
        Json::Object(map) => map.remove("__metadata__"@),
        _ => Map::empty(),
    }
}

/// Why a header cannot be read.
#[derive(Clone, Copy, Debug, PartialEq, Eq, Structural)]
pub enum HeaderError {
    NotJson,
}

// The entry is the one at `k`, which is not below `low` and describes a tensor.
spec fn picked(
    entry: (String, serde_json::Value),
    all: Seq<(String, serde_json::Value)>,
    k: int,
    low: int,
) -> bool {
    low <= k < all.len() && entry == all[k] && entry.0@ != "__metadata__"@
}

/// Keeps the members that describe tensors.
fn keep_tensors(members: Vec<(String, serde_json::Value)>, Ghost(map): Ghost<
    Map<Seq<char>, Json>,
>) -> (out: Vec<(String, serde_json::Value)>)
    requires
        are_members(members@, map),
    ensures
        are_members(out@, map.remove("__metadata__"@)),
{
    let ghost all = members@;
    let mut left = members;
    let mut out: Vec<(String, serde_json::Value)> = Vec::new();
    let ghost mut from: Seq<int> = Seq::empty();
    while left.len() > 0
        invariant
            left@.len() <= all.len(),
            left@ == all.take(left@.len() as int),
            out@.len() == from.len(),
            forall|i: int|
                #![trigger out@[i]]
                0 <= i < out@.len() ==> picked(out@[i], all, from[i], left@.len() as int),
            forall|i: int, j: int| 0 <= i < j < from.len() ==> from[i] > from[j],
            forall|k: int|
                #![trigger all[k]]
                left@.len() <= k < all.len() && all[k].0@ != "__metadata__"@ ==> from.contains(k),
        decreases left@.len(),
    {
        let ghost n = left@.len() - 1;
        let ghost (old_out, old_from) = (out@, from);
        let last = left.pop();
        if let Some(member) = last {
            assert(member == all[n]);
            if is_tensor_entry(member.0.as_str()) {
                out.push(member);
                proof {
                    from = from.push(n);
                    assert(from[from.len() - 1] == n);
                }
            }
        }
        proof {
            assert(left@.len() == n);
            assert(left@ =~= all.take(n));
            assert forall|i: int, j: int| 0 <= i < j < from.len() implies from[i] > from[j] by {
                assert(picked(old_out[i], all, old_from[i], n + 1));
                if j < old_from.len() {
                    assert(from[i] == old_from[i] && from[j] == old_from[j]);
                }
            }
            assert forall|i: int| #![trigger out@[i]] 0 <= i < out@.len() implies picked(
                out@[i],
                all,
                from[i],
                n,
            ) by {
                if i < old_out.len() {
                    assert(picked(old_out[i], all, old_from[i], n + 1));
                }
            }
            assert forall|k: int| #![trigger all[k]]
                n <= k < all.len() && all[k].0@ != "__metadata__"@ implies from.contains(k) by {
                if k > n {
                    let i = choose|i: int| 0 <= i < old_from.len() && old_from[i] == k;
                    assert(from[i] == k);
                }
            }
        }
    }
    proof {
        let kept = map.remove("__metadata__"@);
        assert forall|i: int, j: int|
            #![trigger out@[i], out@[j]]
            0 <= i < j < out@.len() implies out@[i].0@ != out@[j].0@ by {
            let (a, b) = (from[j], from[i]);
            assert(picked(out@[i], all, b, 0) && picked(out@[j], all, a, 0));
            assert(all[a].0@ != all[b].0@);
        }
        assert forall|i: int| #![trigger out@[i]] 0 <= i < out@.len() implies kept.dom().contains(
            out@[i].0@,
        ) && kept[out@[i].0@] == json_of(out@[i].1) by {
            assert(picked(out@[i], all, from[i], 0));
            assert(map.dom().contains(all[from[i]].0@));
        }
        assert forall|key: Seq<char>| #[trigger] kept.dom().contains(key) implies has_member(
            out@,
            key,
        ) by {
            assert(map.dom().contains(key));
            assert(has_member(all, key));
            let k = choose|k: int| 0 <= k < all.len() && (#[trigger] all[k]).0@ == key;
            assert(from.contains(k));
            let i = choose|i: int| 0 <= i < from.len() && from[i] == k;
            assert(picked(out@[i], all, k, 0));
        }
    }
    out
}

/// The entries of the tensors in the text of a header, in some order.
pub fn tensor_entries(text: &str) -> (r: Result<Vec<(String, serde_json::Value)>, HeaderError>)
    ensures
        match r {
            Ok(entries) => parsed(text@) is Some && are_members(
                entries@,
                tensor_members(parsed(text@)->0),
            ),
            Err(e) => parsed(text@) is None && e == HeaderError::NotJson,
        },
{
    match parse_json(text) {
        Ok(v) => {
            let ghost j = json_of(v);
            match into_members(v) {
                Some(members) => {
                    let ghost map = match j {
                        Json::Object(map) => map,
                        _ => Map::empty(),
                    };
                    Ok(keep_tensors(members, Ghost(map)))
                },
                None => Ok(Vec::new()),
            }
        },
        Err(_) => Err(HeaderError::NotJson),
    }
}

/// The tensors of a header are its members but for `__metadata__`; what is no
/// object has none.
pub proof fn law_tensors_are_members(map: Map<Seq<char>, Json>, j: Json, key: Seq<char>)
    ensures
        tensor_members(Json::Object(map)).dom().contains(key) <==> map.dom().contains(key) && key
            != "__metadata__"@,
        tensor_members(Json::Object(map)).dom().contains(key) ==> tensor_members(
            Json::Object(map),
        )[key] == map[key],
        !(j is Object) ==> !tensor_members(j).dom().contains(key),
{
}

/// A list of members has every member of the object once, and nothing else.
pub proof fn law_members_are_listed_once(
    members: Seq<(String, serde_json::Value)>,
    map: Map<Seq<char>, Json>,
    i: int,
    j: int,
    key: Seq<char>,
)
    requires
        are_members(members, map),
    ensures
        0 <= i < j < members.len() ==> members[i].0@ != members[j].0@,
        0 <= i < members.len() ==> map.dom().contains(members[i].0@) && map[members[i].0@]
            == json_of(members[i].1),
        map.dom().contains(key) ==> exists|k: int|
            0 <= k < members.len() && (#[trigger] members[k]).0@ == key,
{
    if map.dom().contains(key) {
        assert(has_member(members, key));
    }
}

} // verus!

//! Values decoded from relay chain storage and events, and the search for what is wanted in them.

use crate::model::opt_view;
use crate::search::first_where;
use crate::text::{push_decimal, same_text};
use crate::types::{ParaCandidateEvent, ParaCandidateEventView};
use vstd::prelude::*;
use vstd::string::*;

verus! {

/// A decoded value.
pub enum ScaleValue {
    /// A composite with named fields.
    Named(Vec<(String, ScaleValue)>),
    /// A composite without names.
    Unnamed(Vec<ScaleValue>),
    /// A variant: the values that it carries, and its debug text.
    Variant { values: Vec<ScaleValue>, debug: String },
    /// An unsigned number.
    U128(u128),
    /// A boolean.
    Bool(bool),
    /// Any other value, by its debug text.
    Other { debug: String },
}

/// The number in a value.
pub open spec fn number_of(val: ScaleValue) -> Option<u128> {
    match val {
        ScaleValue::U128(n) => Some(n),
        _ => None,
    }
}

/// Whether a value is a composite.
pub open spec fn is_composite(val: ScaleValue) -> bool {
    val is Named || val is Unnamed
}

/// The values in a composite; none in any other value.
pub open spec fn values_in(val: ScaleValue) -> Seq<ScaleValue> {
    match val {
        ScaleValue::Named(fields) => Seq::new(fields@.len(), |i: int| fields@[i].1),
        ScaleValue::Unnamed(values) => values@,
        _ => Seq::empty(),
    }
}

/// The low 32 bits of a number.
pub open spec fn low_u32(n: u128) -> u32 {
    (n % 0x1_0000_0000) as u32
}

/// The low 8 bits of a number.
pub open spec fn low_u8(n: u128) -> u8 {
    (n % 0x100) as u8
}

/// The number in a value, as 32 bits.
pub open spec fn u32_of(val: ScaleValue) -> Option<u32> {
    match number_of(val) {
        Some(n) => Some(low_u32(n)),
        None => None,
    }
}

/// The first value in a composite.
pub open spec fn first_of(val: ScaleValue) -> Option<ScaleValue> {
    if values_in(val).len() > 0 {
        Some(values_in(val)[0])
    } else {
        None
    }
}

/// The number in a value, or else in its first value.
pub open spec fn u32_within_one(val: ScaleValue) -> Option<u32> {
    match u32_of(val) {
        Some(n) => Some(n),
        None => match first_of(val) {
            Some(inner) => u32_of(inner),
            None => None,
        },
    }
}

/// The number in a value, or else in its first value, or else in the first value of that.
pub open spec fn u32_within_two(val: ScaleValue) -> Option<u32> {
    match u32_of(val) {
        Some(n) => Some(n),
        None => match first_of(val) {
            Some(inner) => u32_within_one(inner),
            None => None,
        },
    }
}

/// The low bytes of those values that are numbers.
pub open spec fn bytes_in(values: Seq<ScaleValue>) -> Seq<u8>
    decreases values.len(),
{
    if values.len() == 0 {
        Seq::empty()
    } else {
        match number_of(values.last()) {
            Some(n) => bytes_in(values.drop_last()).push(low_u8(n)),
            None => bytes_in(values.drop_last()),
        }
    }
}

/// The bytes of a composite, or else of the composite that is its first value; `None` where there
/// are none.
pub open spec fn bytes_of(val: ScaleValue) -> Option<Seq<u8>> {
    let direct = bytes_in(values_in(val));
    if direct.len() > 0 {
        Some(direct)
    } else {
        match first_of(val) {
            Some(inner) => {
                let nested = bytes_in(values_in(inner));
                if nested.len() > 0 {
                    Some(nested)
                } else {
                    None
                }
            },
            None => None,
        }
    }
}

/// The 32 bytes of a composite; `None` where there is another number of bytes.
pub open spec fn h256_of(val: ScaleValue) -> Option<Seq<u8>> {
    let bytes = bytes_in(values_in(val));
    if bytes.len() == 32 {
        Some(bytes)
    } else {
        None
    }
}

/// The position of the first field of a name.
pub open spec fn field_position(fields: Seq<(String, ScaleValue)>, name: Seq<char>) -> Option<int> {
    first_where(fields.len(), |i: int| fields[i].0@ == name)
}

/// The first field of a name.
pub open spec fn named_field(val: ScaleValue, name: Seq<char>) -> Option<ScaleValue> {
    match val {
        ScaleValue::Named(fields) => match field_position(fields@, name) {
            Some(i) => Some(fields@[i].1),
            None => None,
        },
        _ => None,
    }
}

/// Extracts a u32 from a value.
pub fn extract_u32(val: &ScaleValue) -> (n: Option<u32>)
    ensures
        n == u32_of(*val),
{
    match val {
        ScaleValue::U128(n) => Some((*n % 0x1_0000_0000) as u32),
        _ => None,
    }
}

/// The values in a composite.
fn composite_values(val: &ScaleValue) -> (values: Vec<&ScaleValue>)
    ensures
        values@.len() == values_in(*val).len(),
        forall|i: int| 0 <= i < values@.len() ==> *#[trigger] values@[i] == values_in(*val)[i],
{
    let mut out: Vec<&ScaleValue> = Vec::new();
    match val {
        ScaleValue::Named(fields) => {
            let mut i: usize = 0;
            while i < fields.len()
                invariant
                    i <= fields@.len(),
                    *val == ScaleValue::Named(*fields),
                    out@.len() == i,
                    forall|k: int| 0 <= k < i ==> *#[trigger] out@[k] == values_in(*val)[k],
                decreases fields@.len() - i,
            {
                out.push(&fields[i].1);
                i = i + 1;
            }
        },
        ScaleValue::Unnamed(values) => {
            let mut i: usize = 0;
            while i < values.len()
                invariant
                    i <= values@.len(),
                    *val == ScaleValue::Unnamed(*values),
                    out@.len() == i,
                    forall|k: int| 0 <= k < i ==> *#[trigger] out@[k] == values_in(*val)[k],
                decreases values@.len() - i,
            {
                out.push(&values[i]);
                i = i + 1;
            }
        },
        _ => {},
    }
    out
}

/// Gets the first value from a composite (for newtype wrappers like CoreIndex(u32)).
pub fn get_first_value(val: &ScaleValue) -> (first: Option<&ScaleValue>)
    ensures
        match first {
            Some(v) => first_of(*val) == Some(*v),
            None => first_of(*val) is None,
        },
{
    match val {
        ScaleValue::Named(fields) => if fields.len() > 0 {
            Some(&fields[0].1)
        } else {
            None
        },
        ScaleValue::Unnamed(values) => if values.len() > 0 {
            Some(&values[0])
        } else {
            None
        },
        _ => None,
    }
}

fn u32_or_first(val: &ScaleValue) -> (n: Option<u32>)
    ensures
        n == u32_within_one(*val),
{
    match extract_u32(val) {
        Some(n) => Some(n),
        None => match get_first_value(val) {
            Some(inner) => extract_u32(inner),
            None => None,
        },
    }
}

/// Recursively extracts a u32 from a value, handling newtype wrappers up to two levels deep.
/// For example, ParaId(u32) is a composite of one number.
pub fn extract_u32_recursive(val: &ScaleValue) -> (n: Option<u32>)
    ensures
        n == u32_within_two(*val),
{
    match extract_u32(val) {
        Some(n) => Some(n),
        None => match get_first_value(val) {
            Some(inner) => u32_or_first(inner),
            None => None,
        },
    }
}

fn composite_bytes(val: &ScaleValue) -> (bytes: Vec<u8>)
    ensures
        bytes@ == bytes_in(values_in(*val)),
{
    let values = composite_values(val);
    let ghost all = values_in(*val);
    let mut bytes: Vec<u8> = Vec::new();
    let mut i: usize = 0;
    while i < values.len()
        invariant
            i <= values@.len() == all.len(),
            forall|k: int| 0 <= k < values@.len() ==> *#[trigger] values@[k] == all[k],
            bytes@ == bytes_in(all.take(i as int)),
        decreases values@.len() - i,
    {
        assert(all.take(i + 1).drop_last() == all.take(i as int));
        assert(*values@[i as int] == all[i as int]);
        if let ScaleValue::U128(n) = values[i] {
            bytes.push((*n % 0x100) as u8);
        }
        i = i + 1;
    }
    assert(all.take(all.len() as int) == all);
    bytes
}

/// Extracts bytes from a value.
/// Handles both a flat composite of numbers and a newtype wrapper around one, as for
/// `HeadData(Vec<u8>)`.
pub fn extract_bytes(val: &ScaleValue) -> (bytes: Option<Vec<u8>>)
    ensures
        opt_view(bytes) == bytes_of(*val),
{
    let direct = composite_bytes(val);
    if direct.len() > 0 {
        return Some(direct);
    }
    match get_first_value(val) {
        Some(inner) => {
            let nested = composite_bytes(inner);
            if nested.len() > 0 {
                Some(nested)
            } else {
                None
            }
        },
        None => None,
    }
}

/// Extracts a 32-byte hash from a value, a composite of 32 numbers.
pub fn extract_h256(val: &ScaleValue) -> (hash: Option<[u8; 32]>)
    ensures
        opt_view(hash) == h256_of(*val),
{
    let bytes = composite_bytes(val);
    if bytes.len() != 32 {
        return None;
    }
    let mut hash = [0u8;32];
    let mut i: usize = 0;
    while i < 32
        invariant
            i <= 32,
            bytes@.len() == 32,
            forall|k: int| 0 <= k < i ==> hash@[k] == bytes@[k],
        decreases 32 - i,
    {
        hash[i] = bytes[i];
        i = i + 1;
    }
    assert(hash@ =~= bytes@);
    Some(hash)
}

/// Gets the first field of a name from a composite with named fields.
pub fn get_named_field<'a>(val: &'a ScaleValue, name: &str) -> (field: Option<&'a ScaleValue>)
    ensures
        match field {
            Some(v) => named_field(*val, name@) == Some(*v),
            None => named_field(*val, name@) is None,
        },
{
    match val {
        ScaleValue::Named(fields) => {
            let ghost ok = |i: int| fields@[i].0@ == name@;
            let mut i: usize = 0;
            while i < fields.len()
                invariant
                    i <= fields@.len(),
                    ok == (|i: int| fields@[i].0@ == name@),
                    first_where(i as nat, ok) is None,
                    *val == ScaleValue::Named(*fields),
                decreases fields@.len() - i,
            {
                if same_text(fields[i].0.as_str(), name) {
                    proof {
                        crate::search::first_where_stays(fields@.len(), (i + 1) as nat, ok);
                    }
                    return Some(&fields[i].1);
                }
                i = i + 1;
            }
            None
        },
        _ => None,
    }
}

// ---- Candidate events ----
/// What a candidate event tells, if it is of the parachain asked for: the first field is the
/// receipt, then come the head data, the core and the group.
pub open spec fn candidate_in(fields: Seq<ScaleValue>, our_para_id: u32) -> Option<
    ParaCandidateEventView,
> {
    if fields.len() == 0 {
        None
    } else {
        match named_field(fields[0], "descriptor"@) {
            Some(descriptor) => match named_field(descriptor, "para_id"@) {
                Some(id) => match u32_within_two(id) {
                    Some(para_id) => if para_id != our_para_id {
                        None
                    } else {
                        Some(
                            ParaCandidateEventView {
                                para_id,
                                relay_parent: match named_field(descriptor, "relay_parent"@) {
                                    Some(rp) => h256_of(rp),
                                    None => None,
                                },
                                core_index: if fields.len() > 2 {
                                    u32_within_one(fields[2])
                                } else {
                                    None
                                },
                                group_index: if fields.len() > 3 {
                                    u32_within_one(fields[3])
                                } else {
                                    None
                                },
                                para_head_data: if fields.len() > 1 {
                                    bytes_of(fields[1])
                                } else {
                                    None
                                },
                            },
                        )
                    },
                    None => None,
                },
                None => None,
            },
            None => None,
        }
    }
}

/// Extracts a `ParaCandidateEvent` from the field values of a CandidateBacked or CandidateIncluded
/// event.
/// Event structure: (CandidateReceipt, HeadData, CoreIndex, GroupIndex)
/// CandidateReceipt: { descriptor: { para_id, relay_parent, ... }, commitments_hash }
pub fn extract_para_candidate_event(fields: &Vec<ScaleValue>, our_para_id: u32) -> (event: Option<
    ParaCandidateEvent,
>)
    ensures
        opt_view(event) == candidate_in(fields@, our_para_id),
{
    if fields.len() == 0 {
        return None;
    }
    let descriptor = get_named_field(&fields[0], "descriptor")?;
    let id = get_named_field(descriptor, "para_id")?;
    let para_id = extract_u32_recursive(id)?;
    if para_id != our_para_id {
        return None;
    }
    let relay_parent = match get_named_field(descriptor, "relay_parent") {
        Some(rp) => extract_h256(rp),
        None => None,
    };
    let core_index = if fields.len() > 2 {
        u32_or_first(&fields[2])
    } else {
        None
    };
    let group_index = if fields.len() > 3 {
        u32_or_first(&fields[3])
    } else {
        None
    };
    let para_head_data = if fields.len() > 1 {
        extract_bytes(&fields[1])
    } else {
        None
    };
    Some(ParaCandidateEvent { para_id, relay_parent, core_index, group_index, para_head_data })
}

// ---- The claim queue ----
/// The pairs among values: the composites of two values.
pub open spec fn pairs_in(values: Seq<ScaleValue>) -> Seq<(ScaleValue, ScaleValue)>
    decreases values.len(),
{
    if values.len() == 0 {
        Seq::empty()
    } else {
        let before = pairs_in(values.drop_last());
        let parts = values_in(values.last());
        if parts.len() == 2 {
            before.push((parts[0], parts[1]))
        } else {
            before
        }
    }
}

/// The entries of a map: the pairs in a value, or else in its first value.
pub open spec fn map_entries(val: ScaleValue) -> Seq<(ScaleValue, ScaleValue)> {
    let direct = pairs_in(values_in(val));
    if direct.len() > 0 {
        direct
    } else {
        match first_of(val) {
            Some(inner) => pairs_in(values_in(inner)),
            None => Seq::empty(),
        }
    }
}

/// The pairs that references point to.
pub open spec fn pointed_to(pairs: Seq<(&ScaleValue, &ScaleValue)>) -> Seq<
    (ScaleValue, ScaleValue),
> {
    Seq::new(pairs.len(), |i: int| (*pairs[i].0, *pairs[i].1))
}

/// Tries to extract (key, value) pairs from a composite that represents a list of tuples.
pub fn try_extract_map_entries(val: &ScaleValue) -> (entries: Option<
    Vec<(&ScaleValue, &ScaleValue)>,
>)
    ensures
        match entries {
            Some(e) => is_composite(*val) && pointed_to(e@) == pairs_in(values_in(*val)),
            None => !is_composite(*val),
        },
{
    match val {
        ScaleValue::Named(_) => {},
        ScaleValue::Unnamed(_) => {},
        _ => {
            return None;
        },
    }
    let children = composite_values(val);
    let ghost all = values_in(*val);
    let mut entries: Vec<(&ScaleValue, &ScaleValue)> = Vec::new();
    let mut i: usize = 0;
    while i < children.len()
        invariant
            i <= children@.len() == all.len(),
            forall|k: int| 0 <= k < children@.len() ==> *#[trigger] children@[k] == all[k],
            pointed_to(entries@) == pairs_in(all.take(i as int)),
        decreases children@.len() - i,
    {
        assert(all.take(i + 1).drop_last() == all.take(i as int));
        assert(*children@[i as int] == all[i as int]);
        let parts = composite_values(children[i]);
        if parts.len() == 2 {
            let pair = (parts[0], parts[1]);
            assert(pointed_to(entries@.push(pair)) =~= pointed_to(entries@).push(
                (*pair.0, *pair.1),
            ));
            entries.push(pair);
        }
        i = i + 1;
    }
    assert(all.take(all.len() as int) == all);
    Some(entries)
}

/// Collects (key, value) pairs from a value that encodes a map: a list of pairs, possibly wrapped
/// once more.
pub fn collect_map_entries(val: &ScaleValue) -> (entries: Vec<(&ScaleValue, &ScaleValue)>)
    ensures
        pointed_to(entries@) == map_entries(*val),
{
    if let Some(entries) = try_extract_map_entries(val) {
        if entries.len() > 0 {
            assert(pointed_to(entries@).len() > 0);
            return entries;
        }
        assert(pointed_to(entries@).len() == 0);
    }
    if let Some(inner) = get_first_value(val) {
        if let Some(entries) = try_extract_map_entries(inner) {
            return entries;
        }
    }
    let none: Vec<(&ScaleValue, &ScaleValue)> = Vec::new();
    assert(pointed_to(none@) =~= Seq::empty());
    none
}

/// Whether a parachain is found in a value: as its number, in a field "para_id", or in a value
/// inside it.
pub open spec fn holds_para_id(val: ScaleValue, id: u32) -> bool
    decreases val,
{
    ||| u32_of(val) == Some(id)
    ||| match val {
        ScaleValue::Named(fields) => {
            ||| exists|i: int|
                0 <= i < fields@.len() && (#[trigger] fields@[i]).0@ == "para_id"@
                    && u32_within_two(fields@[i].1) == Some(id)
            ||| exists|i: int|
                0 <= i < fields@.len() && holds_para_id((#[trigger] fields@[i]).1, id)
        },
        ScaleValue::Unnamed(values) => exists|i: int|
            0 <= i < values@.len() && holds_para_id(#[trigger] values@[i], id),
        ScaleValue::Variant { values, .. } => exists|i: int|
            0 <= i < values@.len() && holds_para_id(#[trigger] values@[i], id),
        _ => false,
    }
}

fn any_holds_para_id(values: &Vec<ScaleValue>, id: u32) -> (found: bool)
    ensures
        found == exists|i: int|
            0 <= i < values@.len() && holds_para_id(#[trigger] values@[i], id),
    decreases values,
{
    let mut i: usize = 0;
    while i < values.len()
        invariant
            i <= values@.len(),
            forall|k: int| 0 <= k < i ==> !holds_para_id(#[trigger] values@[k], id),
        decreases values@.len() - i,
    {
        assert(decreases_to!(values => values@[i as int]));
        if value_contains_para_id(&values[i], id) {
            return true;
        }
        i = i + 1;
    }
    false
}

/// Recursively checks if a value contains a matching parachain id.
/// Handles both `ParaId(u32)` directly and nested `ParasEntry` structs, and variants like
/// `Assignment::Bulk(ParaId(3428))`.
pub fn value_contains_para_id(val: &ScaleValue, target_para_id: u32) -> (found: bool)
    ensures
        found == holds_para_id(*val, target_para_id),
    decreases val,
{
    match val {
        ScaleValue::U128(n) => (*n % 0x1_0000_0000) as u32 == target_para_id,
        ScaleValue::Named(fields) => {
            let mut i: usize = 0;
            while i < fields.len()
                invariant
                    i <= fields@.len(),
                    *val == ScaleValue::Named(*fields),
                    forall|k: int|
                        0 <= k < i ==> !((#[trigger] fields@[k]).0@ == "para_id"@ && u32_within_two(
                            fields@[k].1,
                        ) == Some(target_para_id)) && !holds_para_id(fields@[k].1, target_para_id),
                decreases fields@.len() - i,
            {
                if same_text(fields[i].0.as_str(), "para_id") {
                    if let Some(pid) = extract_u32_recursive(&fields[i].1) {
                        if pid == target_para_id {
                            return true;
                        }
                    }
                }
                proof {
                    assert(decreases_to!(val => val->Named_0));
                    assert(decreases_to!(fields => fields@[i as int]));
                    assert(decreases_to!(fields@[i as int] => fields@[i as int].1));
                }
                if value_contains_para_id(&fields[i].1, target_para_id) {
                    return true;
                }
                i = i + 1;
            }
            false
        },
        ScaleValue::Unnamed(values) => any_holds_para_id(values, target_para_id),
        ScaleValue::Variant { values, .. } => any_holds_para_id(values, target_para_id),
        _ => false,
    }
}

/// The cores in the first `n` entries whose queue holds the parachain.
pub open spec fn cores_in(entries: Seq<(ScaleValue, ScaleValue)>, n: nat, id: u32) -> Seq<u32>
    decreases n,
{
    if n == 0 {
        Seq::empty()
    } else {
        let before = cores_in(entries, (n - 1) as nat, id);
        match u32_within_two(entries[n - 1].0) {
            Some(core) if holds_para_id(entries[n - 1].1, id) => before.push(core),
            _ => before,
        }
    }
}

/// Extracts the core indices assigned to our parachain from the claim queue, a map from cores to
/// lists of parachains.
pub fn extract_claim_queue_for_para(val: &ScaleValue, our_para_id: u32) -> (cores: Vec<u32>)
    ensures
        cores@ == cores_in(map_entries(*val), map_entries(*val).len(), our_para_id),
{
    let entries = collect_map_entries(val);
    let mut cores: Vec<u32> = Vec::new();
    let mut i: usize = 0;
    while i < entries.len()
        invariant
            i <= entries@.len(),
            pointed_to(entries@) == map_entries(*val),
            cores@ == cores_in(map_entries(*val), i as nat, our_para_id),
        decreases entries@.len() - i,
    {
        let (key, value) = entries[i];
        assert(pointed_to(entries@)[i as int] == (*key, *value));
        if let Some(core) = extract_u32_recursive(key) {
            if value_contains_para_id(value, our_para_id) {
                cores.push(core);
            }
        }
        i = i + 1;
    }
    assert(pointed_to(entries@).len() == entries@.len());
    cores
}

// ---- Debug texts ----
/// How many fields beyond the first three there are, as text.
pub open spec fn more_text(n: nat) -> Seq<char> {
    if n > 3 {
        ", ..+"@ + crate::text::decimal((n - 3) as nat)
    } else {
        Seq::empty()
    }
}

/// The first `n` of the fields, as text.
pub open spec fn fields_text(fields: Seq<(String, ScaleValue)>, n: nat, depth: nat) -> Seq<char>
    decreases 5 - depth, n,
{
    if n == 0 || depth >= 5 {
        Seq::empty()
    } else {
        let before = fields_text(fields, (n - 1) as nat, depth);
        let comma = if n > 1 {
            before + ", "@
        } else {
            before
        };
        comma + fields[n - 1].0@ + ": "@ + debug_text(fields[n - 1].1, depth + 1)
    }
}

/// The first `n` of the values, as text.
pub open spec fn values_text(values: Seq<ScaleValue>, n: nat, depth: nat) -> Seq<char>
    decreases 5 - depth, n,
{
    if n == 0 || depth >= 5 {
        Seq::empty()
    } else {
        let before = values_text(values, (n - 1) as nat, depth);
        let comma = if n > 1 {
            before + ", "@
        } else {
            before
        };
        comma + debug_text(values[n - 1], depth + 1)
    }
}

/// `n`, or three where `n` is more.
pub open spec fn at_most_three(n: nat) -> nat {
    if n < 3 {
        n
    } else {
        3
    }
}

/// A compact text for the structure of a value, down to five levels.
pub open spec fn debug_text(val: ScaleValue, depth: nat) -> Seq<char>
    decreases 5 - depth, 4nat,
{
    if depth > 4 {
        "..."@
    } else {
        match val {
            ScaleValue::Named(fields) => "Named("@ + fields_text(
                fields@,
                at_most_three(fields@.len()),
                depth,
            ) + ")"@ + more_text(fields@.len()),
            ScaleValue::Unnamed(values) => "Unnamed["@ + crate::text::decimal(values@.len())
                + "]("@ + values_text(values@, at_most_three(values@.len()), depth) + more_text(
                values@.len(),
            ) + ")"@,
            ScaleValue::Variant { values: _, debug } => debug@,
            ScaleValue::U128(n) => "u128("@ + crate::text::decimal(n as nat) + ")"@,
            ScaleValue::Bool(b) => if b {
                "bool(true)"@
            } else {
                "bool(false)"@
            },
            ScaleValue::Other { debug } => debug@,
        }
    }
}

fn push_more(out: &mut String, n: usize)
    ensures
        final(out)@ == old(out)@ + more_text(n as nat),
{
    if n > 3 {
        out.append(", ..+");
        push_decimal(out, (n - 3) as u128);
    }
}

/// Debug helper: produces a compact text for the structure of a value.
pub fn debug_value(val: &ScaleValue, depth: usize) -> (text: String)
    ensures
        text@ == debug_text(*val, depth as nat),
    decreases 5 - depth,
{
    if depth > 4 {
        return "...".to_owned();
    }
    match val {
        ScaleValue::Named(fields) => {
            let mut out = "Named(".to_owned();
            let n: usize = if fields.len() < 3 {
                fields.len()
            } else {
                3
            };
            let mut i: usize = 0;
            while i < n
                invariant
                    i <= n == at_most_three(fields@.len()),
                    depth <= 4,
                    out@ == "Named("@ + fields_text(fields@, i as nat, depth as nat),
                decreases n - i,
            {
                if i > 0 {
                    out.append(", ");
                }
                out.append(fields[i].0.as_str());
                out.append(": ");
                let inner = debug_value(&fields[i].1, depth + 1);
                out.append(inner.as_str());
                i = i + 1;
                assert(out@ =~= "Named("@ + fields_text(fields@, i as nat, depth as nat));
            }
            out.append(")");
            push_more(&mut out, fields.len());
            out
        },
        ScaleValue::Unnamed(values) => {
            let mut out = "Unnamed[".to_owned();
            push_decimal(&mut out, values.len() as u128);
            out.append("](");
            let ghost start = out@;
            let n: usize = if values.len() < 3 {
                values.len()
            } else {
                3
            };
            let mut i: usize = 0;
            while i < n
                invariant
                    i <= n == at_most_three(values@.len()),
                    depth <= 4,
                    out@ == start + values_text(values@, i as nat, depth as nat),
                decreases n - i,
            {
                if i > 0 {
                    out.append(", ");
                }
                let inner = debug_value(&values[i], depth + 1);
                out.append(inner.as_str());
                i = i + 1;
                assert(out@ =~= start + values_text(values@, i as nat, depth as nat));
            }
            push_more(&mut out, values.len());
            out.append(")");
            out
        },
        ScaleValue::Variant { values: _, debug } => debug.clone(),
        ScaleValue::U128(n) => {
            let mut out = "u128(".to_owned();
            push_decimal(&mut out, *n);
            out.append(")");
            out
        },
        ScaleValue::Bool(b) => if *b {
            "bool(true)".to_owned()
        } else {
            "bool(false)".to_owned()
        },
        ScaleValue::Other { debug } => debug.clone(),
    }
}

} // verus!

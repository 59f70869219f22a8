//! The AMF0 key/value pairs of a script tag's metadata object.
use vstd::prelude::*;
use crate::framing::copy_range;

verus! {

/// A value of a metadata entry. Numbers keep their eight IEEE-754
/// big-endian bytes.
pub enum AmfValue {
    Number(Vec<u8>),
    Boolean(bool),
    Str(Vec<u8>),
    Null,
    Undefined,
    /// A value of another kind (object, array, date, long string, ...),
    /// as its AMF0 bytes, marker included.
    Other(Vec<u8>),
}

pub struct AmfEntry {
    pub key: Vec<u8>,
    pub value: AmfValue,
}

pub enum AmfValueView {
    Number(Seq<u8>),
    Boolean(bool),
    Str(Seq<u8>),
    Null,
    Undefined,
    Other(Seq<u8>),
}

pub struct AmfEntryView {
    pub key: Seq<u8>,
    pub value: AmfValueView,
}

impl View for AmfEntry {
    type V = AmfEntryView;

    open spec fn view(&self) -> AmfEntryView {
        AmfEntryView {
            key: self.key@,
            value: match self.value {
                AmfValue::Number(b) => AmfValueView::Number(b@),
                AmfValue::Boolean(x) => AmfValueView::Boolean(x),
                AmfValue::Str(s) => AmfValueView::Str(s@),
                AmfValue::Null => AmfValueView::Null,
                AmfValue::Undefined => AmfValueView::Undefined,
                AmfValue::Other(r) => AmfValueView::Other(r@),
            },
        }
    }
}

pub open spec fn entry_views(v: Seq<AmfEntry>) -> Seq<AmfEntryView> {
    v.map_values(|e: AmfEntry| e@)
}

pub open spec fn be16(b: Seq<u8>, i: int) -> int {
    b[i] as int * 256 + b[i + 1] as int
}

/// How deeply objects and arrays may nest in a metadata value.
pub const MAX_DEPTH: u64 = 64;

pub open spec fn be32(b: Seq<u8>, i: int) -> int {
    b[i] as int * 0x100_0000 + b[i + 1] as int * 0x1_0000 + b[i + 2] as int * 256 + b[i + 3] as int
}

pub open spec fn within(b: Seq<u8>, e: int) -> Option<int> {
    if e <= b.len() { Some(e) } else { None }
}

/// Where the AMF0 value at `pos` ends, if it is whole and nests no deeper
/// than `depth`.
pub open spec fn value_end(b: Seq<u8>, pos: int, depth: nat) -> Option<int>
    decreases depth, b.len() - pos, 0int,
{
    if pos < 0 || pos >= b.len() {
        None
    } else {
        let m = b[pos];
        if m == 0 {
            within(b, pos + 9)
        } else if m == 1 {
            within(b, pos + 2)
        } else if m == 2 {
            if pos + 3 > b.len() { None } else { within(b, pos + 3 + be16(b, pos + 1)) }
        } else if m == 5 || m == 6 || m == 13 {
            Some(pos + 1)
        } else if m == 7 {
            within(b, pos + 3)
        } else if m == 11 {
            within(b, pos + 11)
        } else if m == 12 || m == 15 {
            if pos + 5 > b.len() { None } else { within(b, pos + 5 + be32(b, pos + 1)) }
        } else if depth == 0 {
            None
        } else if m == 3 {
            props_end(b, pos + 1, (depth - 1) as nat)
        } else if m == 8 {
            if pos + 5 > b.len() { None } else { props_end(b, pos + 5, (depth - 1) as nat) }
        } else if m == 16 {
            if pos + 3 > b.len() || pos + 3 + be16(b, pos + 1) > b.len() {
                None
            } else {
                props_end(b, pos + 3 + be16(b, pos + 1), (depth - 1) as nat)
            }
        } else if m == 10 {
            if pos + 5 > b.len() { None } else { items_end(b, pos + 5, be32(b, pos + 1), (depth - 1) as nat) }
        } else {
            None
        }
    }
}

/// Where the key/value pairs from `pos` end, after their end marker
/// (an empty key, then 9).
pub open spec fn props_end(b: Seq<u8>, pos: int, depth: nat) -> Option<int>
    decreases depth, b.len() - pos, 1int,
{
    if pos < 0 || pos + 2 > b.len() {
        None
    } else if be16(b, pos) == 0 {
        if pos + 3 <= b.len() && b[pos + 2] == 9 { Some(pos + 3) } else { None }
    } else {
        let v = pos + 2 + be16(b, pos);
        if v >= b.len() {
            None
        } else {
            match value_end(b, v, depth) {
                Some(e) => if pos < e <= b.len() { props_end(b, e, depth) } else { None },
                None => None,
            }
        }
    }
}

/// Where `count` values from `pos` end.
pub open spec fn items_end(b: Seq<u8>, pos: int, count: int, depth: nat) -> Option<int>
    decreases depth, b.len() - pos, 2int,
{
    if count <= 0 {
        Some(pos)
    } else if pos < 0 || pos >= b.len() {
        None
    } else {
        match value_end(b, pos, depth) {
            Some(e) => if pos < e <= b.len() { items_end(b, e, count - 1, depth) } else { None },
            None => None,
        }
    }
}

fn be16_at(b: &[u8], i: usize) -> (r: usize)
    requires
        i + 2 <= b@.len(),
    ensures
        r == be16(b@, i as int),
{
    (b[i] as usize) * 256 + (b[i + 1] as usize)
}

fn be32_at(b: &[u8], i: usize) -> (r: u64)
    requires
        i + 4 <= b@.len(),
    ensures
        r == be32(b@, i as int),
{
    (b[i] as u64) * 0x100_0000 + (b[i + 1] as u64) * 0x1_0000 + (b[i + 2] as u64) * 256 + (b[i + 3] as u64)
}

fn within_exec(b: &[u8], pos: usize, extra: u64) -> (r: Option<usize>)
    requires
        pos <= b@.len(),
    ensures
        match r {
            Some(e) => within(b@, pos + extra) == Some(e as int),
            None => within(b@, pos + extra) is None,
        },
{
    if extra <= (b.len() - pos) as u64 {
        Some(pos + extra as usize)
    } else {
        None
    }
}

/// Finds where the AMF0 value at `pos` ends.
pub fn read_value_end(b: &[u8], pos: usize, depth: u64) -> (r: Option<usize>)
    ensures
        match r {
            Some(e) => value_end(b@, pos as int, depth as nat) == Some(e as int),
            None => value_end(b@, pos as int, depth as nat) is None,
        },
    decreases depth, 0int,
{
    let len = b.len();
    if pos >= len {
        return None;
    }
    let m = b[pos];
    if m == 0 {
        within_exec(b, pos, 9)
    } else if m == 1 {
        within_exec(b, pos, 2)
    } else if m == 2 {
        if len - pos < 3 {
            return None;
        }
        within_exec(b, pos, 3 + be16_at(b, pos + 1) as u64)
    } else if m == 5 || m == 6 || m == 13 {
        Some(pos + 1)
    } else if m == 7 {
        within_exec(b, pos, 3)
    } else if m == 11 {
        within_exec(b, pos, 11)
    } else if m == 12 || m == 15 {
        if len - pos < 5 {
            return None;
        }
        within_exec(b, pos, 5 + be32_at(b, pos + 1))
    } else if depth == 0 {
        None
    } else if m == 3 {
        read_props_end(b, pos + 1, depth - 1)
    } else if m == 8 {
        if len - pos < 5 {
            return None;
        }
        read_props_end(b, pos + 5, depth - 1)
    } else if m == 16 {
        if len - pos < 3 {
            return None;
        }
        let k = be16_at(b, pos + 1);
        if len - pos - 3 < k {
            return None;
        }
        read_props_end(b, pos + 3 + k, depth - 1)
    } else if m == 10 {
        if len - pos < 5 {
            return None;
        }
        read_items_end(b, pos + 5, be32_at(b, pos + 1), depth - 1)
    } else {
        None
    }
}

/// Finds where the key/value pairs from `start` end.
pub fn read_props_end(b: &[u8], start: usize, depth: u64) -> (r: Option<usize>)
    ensures
        match r {
            Some(e) => props_end(b@, start as int, depth as nat) == Some(e as int),
            None => props_end(b@, start as int, depth as nat) is None,
        },
    decreases depth, 1int,
{
    let len = b.len();
    let mut pos = start;
    loop
        invariant
            len == b@.len(),
            props_end(b@, pos as int, depth as nat) == props_end(b@, start as int, depth as nat),
        decreases len - pos,
    {
        if pos > len || len - pos < 2 {
            return None;
        }
        let k = be16_at(b, pos);
        if k == 0 {
            if len - pos >= 3 && b[pos + 2] == 9 {
                return Some(pos + 3);
            }
            return None;
        }
        if len - pos - 2 <= k {
            return None;
        }
        let v = pos + 2 + k;
        match read_value_end(b, v, depth) {
            Some(e) => {
                if e <= pos || e > len {
                    return None;
                }
                pos = e;
            },
            None => return None,
        }
    }
}

/// Finds where `count` values from `start` end.
pub fn read_items_end(b: &[u8], start: usize, count: u64, depth: u64) -> (r: Option<usize>)
    ensures
        match r {
            Some(e) => items_end(b@, start as int, count as int, depth as nat) == Some(e as int),
            None => items_end(b@, start as int, count as int, depth as nat) is None,
        },
    decreases depth, 1int,
{
    let len = b.len();
    let mut pos = start;
    let mut left = count;
    loop
        invariant
            len == b@.len(),
            items_end(b@, pos as int, left as int, depth as nat) == items_end(b@, start as int, count as int, depth as nat),
        decreases left,
    {
        if left == 0 {
            return Some(pos);
        }
        if pos >= len {
            return None;
        }
        match read_value_end(b, pos, depth) {
            Some(e) => {
                if e <= pos || e > len {
                    return None;
                }
                pos = e;
                left = left - 1;
            },
            None => return None,
        }
    }
}

/// The entry that starts at `pos` and where the next one starts. Nothing at
/// the end marker (an empty key), or where the value is not whole.
pub open spec fn entry_at(b: Seq<u8>, pos: int) -> Option<(AmfEntryView, int)> {
    if pos < 0 || pos + 2 > b.len() {
        None
    } else {
        let k = be16(b, pos);
        let v = pos + 2 + k;
        if k == 0 || v + 1 > b.len() {
            None
        } else {
            let key = b.subrange(pos + 2, v);
            let m = b[v];
            if m == 0 {
                if v + 9 > b.len() {
                    None
                } else {
                    Some((AmfEntryView { key, value: AmfValueView::Number(b.subrange(v + 1, v + 9)) }, v + 9))
                }
            } else if m == 1 {
                if v + 2 > b.len() {
                    None
                } else {
                    Some((AmfEntryView { key, value: AmfValueView::Boolean(b[v + 1] != 0) }, v + 2))
                }
            } else if m == 2 {
                if v + 3 > b.len() || v + 3 + be16(b, v + 1) > b.len() {
                    None
                } else {
                    Some((
                        AmfEntryView { key, value: AmfValueView::Str(b.subrange(v + 3, v + 3 + be16(b, v + 1))) },
                        v + 3 + be16(b, v + 1),
                    ))
                }
            } else if m == 5 {
                Some((AmfEntryView { key, value: AmfValueView::Null }, v + 1))
            } else if m == 6 {
                Some((AmfEntryView { key, value: AmfValueView::Undefined }, v + 1))
            } else {
                match value_end(b, v, MAX_DEPTH as nat) {
                    Some(e) => if v < e <= b.len() {
                        Some((AmfEntryView { key, value: AmfValueView::Other(b.subrange(v, e)) }, e))
                    } else {
                        None
                    },
                    None => None,
                }
            }
        }
    }
}

/// The entries from `pos` on, as far as they can be read.
pub open spec fn entries_from(b: Seq<u8>, pos: int) -> Seq<AmfEntryView>
    decreases b.len() - pos,
{
    if pos < 0 || pos >= b.len() {
        seq![]
    } else {
        match entry_at(b, pos) {
            Some((e, next)) => if pos < next <= b.len() {
                seq![e] + entries_from(b, next)
            } else {
                seq![]
            },
            None => seq![],
        }
    }
}

/// The entries of the value that follows a script tag's name at `pos`: an
/// ECMA array (marker 8, then a 4-byte count) or an object (marker 3).
pub open spec fn script_entries(b: Seq<u8>, pos: int) -> Seq<AmfEntryView> {
    if 0 <= pos < b.len() && b[pos] == 8 {
        entries_from(b, pos + 5)
    } else if 0 <= pos < b.len() && b[pos] == 3 {
        entries_from(b, pos + 1)
    } else {
        seq![]
    }
}

/// Reads the entry at `pos`.
pub fn read_entry(b: &[u8], pos: usize) -> (r: Option<(AmfEntry, usize)>)
    ensures
        match r {
            Some((e, next)) => entry_at(b@, pos as int) == Some((e@, next as int)),
            None => entry_at(b@, pos as int) is None,
        },
{
    let len = b.len();
    if pos > len || len - pos < 2 {
        return None;
    }
    let k = (b[pos] as usize) * 256 + (b[pos + 1] as usize);
    if k == 0 || len - pos - 2 < k + 1 {
        return None;
    }
    let v = pos + 2 + k;
    let key = copy_range(b, pos + 2, v);
    let m = b[v];
    if m == 0 {
        if len - v < 9 {
            return None;
        }
        Some((AmfEntry { key, value: AmfValue::Number(copy_range(b, v + 1, v + 9)) }, v + 9))
    } else if m == 1 {
        if len - v < 2 {
            return None;
        }
        Some((AmfEntry { key, value: AmfValue::Boolean(b[v + 1] != 0) }, v + 2))
    } else if m == 2 {
        if len - v < 3 {
            return None;
        }
        let n = (b[v + 1] as usize) * 256 + (b[v + 2] as usize);
        if len - v - 3 < n {
            return None;
        }
        Some((AmfEntry { key, value: AmfValue::Str(copy_range(b, v + 3, v + 3 + n)) }, v + 3 + n))
    } else if m == 5 {
        Some((AmfEntry { key, value: AmfValue::Null }, v + 1))
    } else if m == 6 {
        Some((AmfEntry { key, value: AmfValue::Undefined }, v + 1))
    } else {
        match read_value_end(b, v, MAX_DEPTH) {
            Some(e) => {
                if e <= v || e > len {
                    return None;
                }
                Some((AmfEntry { key, value: AmfValue::Other(copy_range(b, v, e)) }, e))
            },
            None => None,
        }
    }
}

/// Reads entries from `pos` on, as far as they can be read.
pub fn read_entries(b: &[u8], start: usize) -> (r: Vec<AmfEntry>)
    ensures
        entry_views(r@) == entries_from(b@, start as int),
{
    let mut r: Vec<AmfEntry> = Vec::new();
    let mut pos: usize = start;
    assert(entry_views(r@) + entries_from(b@, pos as int) =~= entries_from(b@, start as int));
    while pos < b.len()
        invariant
            entry_views(r@) + entries_from(b@, pos as int) == entries_from(b@, start as int),
        decreases b@.len() - pos,
    {
        match read_entry(b, pos) {
            Some((e, next)) => {
                if next <= pos || next > b.len() {
                    assert(entries_from(b@, pos as int) =~= Seq::<AmfEntryView>::empty());
                    assert(entry_views(r@) + Seq::<AmfEntryView>::empty() =~= entry_views(r@));
                    return r;
                }
                proof {
                    assert(entries_from(b@, pos as int) == seq![e@] + entries_from(b@, next as int));
                    assert(entry_views(r@.push(e)) =~= entry_views(r@).push(e@));
                    assert(entry_views(r@).push(e@) + entries_from(b@, next as int)
                        =~= entry_views(r@) + (seq![e@] + entries_from(b@, next as int)));
                }
                r.push(e);
                pos = next;
            },
            None => {
                assert(entries_from(b@, pos as int) =~= Seq::<AmfEntryView>::empty());
                assert(entry_views(r@) + Seq::<AmfEntryView>::empty() =~= entry_views(r@));
                return r;
            },
        }
    }
    assert(entries_from(b@, pos as int) =~= Seq::<AmfEntryView>::empty());
    assert(entry_views(r@) + Seq::<AmfEntryView>::empty() =~= entry_views(r@));
    r
}

/// Reads the entries of the metadata value at `pos`.
pub fn read_script_entries(b: &[u8], pos: usize) -> (r: Vec<AmfEntry>)
    ensures
        entry_views(r@) == script_entries(b@, pos as int),
{
    if pos < b.len() && b[pos] == 8 {
        if b.len() - pos < 5 {
            let r: Vec<AmfEntry> = Vec::new();
            assert(entry_views(r@) =~= Seq::<AmfEntryView>::empty());
            return r;
        }
        read_entries(b, pos + 5)
    } else if pos < b.len() && b[pos] == 3 {
        read_entries(b, pos + 1)
    } else {
        let r: Vec<AmfEntry> = Vec::new();
        assert(entry_views(r@) =~= Seq::<AmfEntryView>::empty());
        r
    }
}

} // verus!

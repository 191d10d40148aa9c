use vstd::prelude::*;
use std::collections::HashMap;
use crate::data_flow::Size;
use vstd::std_specs::cmp::PartialEqSpec;
use vstd::std_specs::hash::{spec_hash_map_iter, obeys_key_model};
use vstd::std_specs::iter::IteratorSpec;

verus! {

broadcast use vstd::std_specs::hash::group_hash_axioms;

/// The signed size of the same width.
pub open spec fn spec_set_signed(size: Size) -> Size {
    match size {
        Size::Unsigned8 => Size::Signed8,
        Size::Unsigned16 => Size::Signed16,
        Size::Unsigned32 => Size::Signed32,
        Size::Unsigned64 => Size::Signed64,
        _ => size,
    }
}

/// The unsigned size of the same width.
pub open spec fn spec_set_unsigned(size: Size) -> Size {
    match size {
        Size::Signed8 => Size::Unsigned8,
        Size::Signed16 => Size::Unsigned16,
        Size::Signed32 => Size::Unsigned32,
        Size::Signed64 => Size::Unsigned64,
        _ => size,
    }
}

pub fn set_signed(size: Size) -> (r: Size)
    ensures
        r == spec_set_signed(size),
{
    match size {
        Size::Unsigned8 => Size::Signed8,
        Size::Unsigned16 => Size::Signed16,
        Size::Unsigned32 => Size::Signed32,
        Size::Unsigned64 => Size::Signed64,
        _ => size,
    }
}

pub fn set_unsigned(size: Size) -> (r: Size)
    ensures
        r == spec_set_unsigned(size),
{
    match size {
        Size::Signed8 => Size::Unsigned8,
        Size::Signed16 => Size::Unsigned16,
        Size::Signed32 => Size::Unsigned32,
        Size::Signed64 => Size::Unsigned64,
        _ => size,
    }
}

/// Making a size signed after making it unsigned gives its signed form, and
/// the other way round; each conversion is idempotent.
pub proof fn lemma_sign_conversions(size: Size)
    ensures
        spec_set_signed(spec_set_unsigned(size)) == spec_set_signed(size),
        spec_set_unsigned(spec_set_signed(size)) == spec_set_unsigned(size),
        spec_set_signed(spec_set_signed(size)) == spec_set_signed(size),
        spec_set_unsigned(spec_set_unsigned(size)) == spec_set_unsigned(size),
{
}

/// The position of the first element of `vec` equal to `elem`, if any.
pub fn get_index_at_vec<T: PartialEq>(vec: &Vec<T>, elem: T) -> (r: Option<usize>)
    ensures
        T::obeys_eq_spec() ==> (r is None <==> forall|j: int| 0 <= j < vec.len() ==> !(#[trigger] vec@[j]).eq_spec(&elem)),
        T::obeys_eq_spec() ==> (r matches Some(i) ==> i < vec.len() && vec@[i as int].eq_spec(&elem)
            && forall|j: int| 0 <= j < i ==> !(#[trigger] vec@[j]).eq_spec(&elem)),
{
    let mut i: usize = 0;
    while i < vec.len()
        invariant
            i <= vec.len(),
            T::obeys_eq_spec() ==> forall|j: int| 0 <= j < i ==> !(#[trigger] vec@[j]).eq_spec(&elem),
        decreases vec.len() - i,
    {
        if vec[i] == elem {
            return Some(i);
        }
        i = i + 1;
    }
    None
}

/// A key of `map` whose value is equal to `value`, if there is one (the
/// first such key in the order in which the map is walked); for values
/// whose equality behaves.
pub fn get_key_from_value<V: PartialEq>(map: &HashMap<usize, V>, value: V) -> (r: Option<usize>)
    ensures
        V::obeys_eq_spec() ==> {
            &&& (r is None <==> forall|k: usize| #[trigger] map@.contains_key(k) ==> !map@[k].eq_spec(&value))
            &&& (r matches Some(k) ==> map@.contains_key(k) && map@[k].eq_spec(&value))
        },
{
    let ghost v = spec_hash_map_iter(map).remaining();
    let ghost mut cnt: int = 0;
    for entry in it: map.iter()
        invariant
            it.seq() == v,
            cnt == it.index(),
            v == spec_hash_map_iter(map).remaining(),
            V::obeys_eq_spec() ==> forall|j: int| 0 <= j < cnt ==> !(*(#[trigger] v[j]).1).eq_spec(&value),
    {
        let (k, val) = entry;
        proof {
            assert(cnt < v.len());
            assert(entry == v[cnt]);
            assert(map@.contains_key(*v[cnt].0));
        }
        if *val == value {
            return Some(*k);
        }
        proof {
            cnt = cnt + 1;
        }
    }
    proof {
        if V::obeys_eq_spec() {
            assert forall|k: usize| #[trigger] map@.contains_key(k) implies !map@[k].eq_spec(&value) by {
                assert(v.contains((&k, &map@[k])));
                let j = choose|j: int| 0 <= j < v.len() && v[j] == (&k, &map@[k]);
                assert(!(*v[j].1).eq_spec(&value));
            }
        }
    }
    None
}

/// The keys of `m`, each once.
pub fn map_keys<K: Copy, V>(m: &HashMap<K, V>) -> (r: Vec<K>)
    requires
        obeys_key_model::<K>(),
    ensures
        r@.to_set() == m@.dom(),
        r@.no_duplicates(),
{
    let mut r: Vec<K> = Vec::new();
    let ghost ks = vstd::std_specs::hash::spec_keys_iter(m).remaining().unref();
    let ghost mut cnt: int = 0;
    for k in it: m.keys()
        invariant
            it.seq() == vstd::std_specs::hash::spec_keys_iter(m).remaining(),
            ks == it.seq().unref(),
            cnt == it.index(),
            r@ == ks.take(cnt),
    {
        proof {
            assert(cnt < ks.len());
            assert(*k == ks[cnt]);
            assert(ks.take(cnt + 1) =~= ks.take(cnt).push(*k));
        }
        r.push(*k);
        proof {
            cnt = cnt + 1;
        }
    }
    proof {
        assert(ks.take(cnt) =~= ks);
        assert(ks.no_duplicates()) by {
            assert forall|i: int, j: int| 0 <= i < ks.len() && 0 <= j < ks.len() && i != j implies ks[i] != ks[j] by {
                let rs = vstd::std_specs::hash::spec_keys_iter(m).remaining();
                assert(rs[i] != rs[j]);
            }
        }
    }
    r
}

/// Appends `c` to `s`.
#[verifier::external_body]
pub(crate) fn push_char(s: &mut String, c: char)
    ensures
        final(s)@ == old(s)@.push(c),
{
    s.push(c);
}

/// The bytes of `bytes` from `start` up to (not including) the first zero byte.
pub open spec fn c_string_bytes(bytes: Seq<u8>, start: int) -> Seq<u8>
    decreases bytes.len() - start,
{
    if start < 0 || start >= bytes.len() || bytes[start] == 0 {
        Seq::empty()
    } else {
        seq![bytes[start]] + c_string_bytes(bytes, start + 1)
    }
}

/// Some byte at or after `start` is zero.
pub open spec fn has_terminator(bytes: Seq<u8>, start: int) -> bool {
    exists|k: int| start <= k < bytes.len() && bytes[k] == 0
}

/// Each byte read as the character of the same number.
pub open spec fn bytes_as_chars(b: Seq<u8>) -> Seq<char> {
    b.map_values(|x: u8| x as char)
}

proof fn lemma_c_string_step(bytes: Seq<u8>, start: int)
    requires
        0 <= start < bytes.len(),
        bytes[start] != 0,
    ensures
        c_string_bytes(bytes, start) == seq![bytes[start]] + c_string_bytes(bytes, start + 1),
{
}

/// Reads the zero-terminated string that starts at `start` in `bytes`.
pub fn get_c_string(start: usize, bytes: &Vec<u8>) -> (s: String)
    requires
        start < bytes.len(),
        has_terminator(bytes@, start as int),
    ensures
        s@ == bytes_as_chars(c_string_bytes(bytes@, start as int)),
{
    let mut string = String::new();
    let mut offset = start;
    let mut c = bytes[start];
    let ghost b = bytes@;
    assert(b.subrange(start as int, start as int) =~= Seq::<u8>::empty());
    while c != 0
        invariant
            start <= offset < b.len(),
            offset < bytes.len(),
            b == bytes@,
            c == b[offset as int],
            has_terminator(b, offset as int),
            bytes_as_chars(c_string_bytes(b, start as int)) == string@ + bytes_as_chars(c_string_bytes(b, offset as int)),
        decreases b.len() - offset,
    {
        proof {
            lemma_c_string_step(b, offset as int);
            assert(bytes_as_chars(seq![b[offset as int]] + c_string_bytes(b, offset + 1))
                =~= seq![c as char] + bytes_as_chars(c_string_bytes(b, offset + 1)));
            assert(string@.push(c as char) + bytes_as_chars(c_string_bytes(b, offset + 1))
                =~= string@ + (seq![c as char] + bytes_as_chars(c_string_bytes(b, offset + 1))));
            let k = choose|k: int| offset <= k < b.len() && b[k] == 0;
            assert(k != offset);
        }
        push_char(&mut string, c as char);
        offset = offset + 1;
        c = bytes[offset];
    }
    proof {
        assert(c_string_bytes(b, offset as int) =~= Seq::<u8>::empty());
        assert(string@ + bytes_as_chars(Seq::<u8>::empty()) =~= string@);
    }
    string
}

} // verus!

verus! {

/// `start` lies strictly inside the segment that begins at `base` and holds `len` bytes.
pub open spec fn in_segment(start: u64, base: u64, len: nat) -> bool {
    start > base && start < base + len
}

/// Newlines and tabs written as the two-character escapes `\n` and `\t`.
pub open spec fn escape_chars(s: Seq<char>) -> Seq<char>
    decreases s.len(),
{
    if s.len() == 0 {
        Seq::empty()
    } else {
        let c = s.last();
        let e = if c == '\n' { seq!['\\', 'n'] } else if c == '\t' { seq!['\\', 't'] } else { seq![c] };
        escape_chars(s.drop_last()) + e
    }
}

/// The zero-terminated strings found at `start` in the matching segments of
/// `pairs`, one after the other in the order of `pairs`.
pub open spec fn matched_strings(pairs: Seq<(u64, Seq<u8>)>, start: u64) -> Seq<u8>
    decreases pairs.len(),
{
    if pairs.len() == 0 {
        Seq::empty()
    } else {
        let (base, bytes) = pairs.last();
        let rest = matched_strings(pairs.drop_last(), start);
        if in_segment(start, base, bytes.len()) {
            rest + c_string_bytes(bytes, start - base)
        } else {
            rest
        }
    }
}

proof fn lemma_matched_strings_none(pairs: Seq<(u64, Seq<u8>)>, start: u64)
    requires
        forall|i: int| 0 <= i < pairs.len() ==> !in_segment(start, (#[trigger] pairs[i]).0, pairs[i].1.len()),
    ensures
        matched_strings(pairs, start) == Seq::<u8>::empty(),
    decreases pairs.len(),
{
    if pairs.len() > 0 {
        lemma_matched_strings_none(pairs.drop_last(), start);
    }
}

proof fn lemma_matched_strings_one(pairs: Seq<(u64, Seq<u8>)>, start: u64, m: int)
    requires
        0 <= m < pairs.len(),
        in_segment(start, pairs[m].0, pairs[m].1.len()),
        forall|i: int| 0 <= i < pairs.len() && i != m ==> !in_segment(start, (#[trigger] pairs[i]).0, pairs[i].1.len()),
    ensures
        matched_strings(pairs, start) == c_string_bytes(pairs[m].1, start - pairs[m].0),
    decreases pairs.len(),
{
    if m == pairs.len() - 1 {
        lemma_matched_strings_none(pairs.drop_last(), start);
        assert(Seq::<u8>::empty() + c_string_bytes(pairs[m].1, start - pairs[m].0) =~= c_string_bytes(pairs[m].1, start - pairs[m].0));
    } else {
        lemma_matched_strings_one(pairs.drop_last(), start, m);
    }
}

proof fn lemma_escape_push(s: Seq<char>, c: char)
    ensures
        escape_chars(s.push(c)) == escape_chars(s) + (if c == '\n' { seq!['\\', 'n'] } else if c == '\t' { seq!['\\', 't'] } else { seq![c] }),
{
    assert(s.push(c).drop_last() =~= s);
}

/// Appends the escaped form of `src` to `dst`.
fn push_escaped(dst: &mut String, src: &Vec<char>)
    ensures
        final(dst)@ == old(dst)@ + escape_chars(src@),
{
    let ghost d0 = dst@;
    let mut i: usize = 0;
    assert(src@.subrange(0, 0) =~= Seq::<char>::empty());
    while i < src.len()
        invariant
            i <= src.len(),
            dst@ == d0 + escape_chars(src@.subrange(0, i as int)),
        decreases src.len() - i,
    {
        let c = src[i];
        proof {
            assert(src@.subrange(0, i + 1) =~= src@.subrange(0, i as int).push(c));
            lemma_escape_push(src@.subrange(0, i as int), c);
        }
        if c == '\n' {
            push_char(dst, '\\');
            push_char(dst, 'n');
            assert(dst@ =~= d0 + escape_chars(src@.subrange(0, i + 1)));
        } else if c == '\t' {
            push_char(dst, '\\');
            push_char(dst, 't');
            assert(dst@ =~= d0 + escape_chars(src@.subrange(0, i + 1)));
        } else {
            push_char(dst, c);
            assert(dst@ =~= d0 + escape_chars(src@.subrange(0, i + 1)));
        }
        i = i + 1;
    }
    assert(src@.subrange(0, src@.len() as int) =~= src@);
}

/// Appends the zero-terminated string at `offset` of `bytes` to `out`.
fn read_c_string_into(out: &mut Vec<char>, bytes: &Vec<u8>, offset: usize)
    requires
        offset < bytes.len(),
        has_terminator(bytes@, offset as int),
    ensures
        final(out)@ == old(out)@ + bytes_as_chars(c_string_bytes(bytes@, offset as int)),
{
    let ghost o0 = out@;
    let ghost b = bytes@;
    let mut off = offset;
    let mut c = bytes[off];
    assert(o0 + Seq::<char>::empty() =~= o0);
    while c != 0
        invariant
            offset <= off < b.len(),
            off < bytes.len(),
            b == bytes@,
            c == b[off as int],
            has_terminator(b, off as int),
            o0 + bytes_as_chars(c_string_bytes(b, offset as int)) == out@ + bytes_as_chars(c_string_bytes(b, off as int)),
        decreases b.len() - off,
    {
        proof {
            lemma_c_string_step(b, off as int);
            assert(bytes_as_chars(seq![b[off as int]] + c_string_bytes(b, off + 1))
                =~= seq![c as char] + bytes_as_chars(c_string_bytes(b, off + 1)));
            assert(out@.push(c as char) + bytes_as_chars(c_string_bytes(b, off + 1))
                =~= out@ + (seq![c as char] + bytes_as_chars(c_string_bytes(b, off + 1))));
            let k = choose|k: int| off <= k < b.len() && b[k] == 0;
            assert(k != off);
        }
        out.push(c as char);
        off = off + 1;
        c = bytes[off];
    }
    proof {
        assert(c_string_bytes(b, off as int) =~= Seq::<u8>::empty());
        assert(out@ + bytes_as_chars(Seq::<u8>::empty()) =~= out@);
    }
}

/// The segments of a walk over the data map, each as its base and its bytes.
pub open spec fn segment_pairs(v: Seq<(&u64, &Vec<u8>)>) -> Seq<(u64, Seq<u8>)> {
    v.map_values(|p: (&u64, &Vec<u8>)| (*p.0, p.1@))
}

/// The strings found at `start` in the data segments, one after the other
/// in the order in which the map of segments is walked, with newlines and
/// tabs escaped.
pub open spec fn data_string(data: &HashMap<u64, Vec<u8>>, start: u64) -> Seq<char> {
    escape_chars(bytes_as_chars(matched_strings(owned_segment_pairs(vstd::std_specs::hash::into_iter(spec_hash_map_iter(data))), start)))
}

/// The segments of the data map, each as its base and its bytes.
pub open spec fn owned_segment_pairs(v: Seq<(u64, Vec<u8>)>) -> Seq<(u64, Seq<u8>)> {
    v.map_values(|p: (u64, Vec<u8>)| (p.0, p.1@))
}

/// Some segment of `data` holds `start`.
pub open spec fn start_in_data(start: u64, data: Map<u64, Vec<u8>>) -> bool {
    exists|k: u64| data.contains_key(k) && in_segment(start, k, data[k]@.len())
}

/// Reads the zero-terminated string at address `start` of the data segments
/// (each keyed by its base address), with newlines and tabs escaped; `None`
/// when no segment holds `start` strictly inside it.
pub fn get_c_string_from_data(start: u64, data: &HashMap<u64, Vec<u8>>) -> (r: Option<String>)
    requires
        forall|k: u64| #[trigger] data@.contains_key(k) ==> k + data@[k]@.len() <= u64::MAX,
        forall|k: u64| #[trigger] data@.contains_key(k) && in_segment(start, k, data@[k]@.len())
            ==> has_terminator(data@[k]@, start - k),
    ensures
        r is Some <==> start_in_data(start, data@),
        forall|k: u64| #[trigger] data@.contains_key(k) && in_segment(start, k, data@[k]@.len())
            && (forall|k2: u64| data@.contains_key(k2) && in_segment(start, k2, data@[k2]@.len()) ==> k2 == k)
            ==> r is Some && r.unwrap()@ == escape_chars(bytes_as_chars(c_string_bytes(data@[k]@, start - k))),
        r matches Some(t) ==> t@ == data_string(data, start),
{
    let mut s: Vec<char> = Vec::new();
    let mut flag = false;
    let segments = data.iter();
    let ghost v = spec_hash_map_iter(data).remaining();
    proof {
        assert(owned_segment_pairs(vstd::std_specs::hash::into_iter(spec_hash_map_iter(data))) =~= segment_pairs(v));
    }
    let ghost mut cnt: int = 0;
    for d in it: segments
        invariant
            forall|k: u64| #[trigger] data@.contains_key(k) ==> k + data@[k]@.len() <= u64::MAX,
            forall|k: u64| #[trigger] data@.contains_key(k) && in_segment(start, k, data@[k]@.len())
                ==> has_terminator(data@[k]@, start - k),
            it.seq() == v,
            cnt == it.index(),
            v == spec_hash_map_iter(data).remaining(),
            flag <==> exists|j: int| 0 <= j < cnt && in_segment(start, *(#[trigger] v[j]).0, v[j].1@.len()),
            s@ == bytes_as_chars(matched_strings(segment_pairs(v.take(cnt)), start)),
    {
        let ghost idx = cnt;
        let (base, bytes) = d;
        proof {
            assert(idx < v.len());
            assert(d == v[idx]);
            assert(data@.contains_key(*v[idx].0));
        }
        if start > *base && start < *base + bytes.len() as u64 {
            flag = true;
            let offset = (start - *base) as usize;
            read_c_string_into(&mut s, bytes, offset);
        }
        proof {
            assert(segment_pairs(v.take(idx + 1)).drop_last() =~= segment_pairs(v.take(idx)));
            assert(segment_pairs(v.take(idx + 1)).last() == (*base, bytes@));
            cnt = cnt + 1;
        }
    }
    proof {
        assert(cnt == v.len());
        assert(v.take(cnt) =~= v);
        if start_in_data(start, data@) {
            let k = choose|k: u64| data@.contains_key(k) && in_segment(start, k, data@[k]@.len());
            assert(v.contains((&k, &data@[k])));
            let j = choose|j: int| 0 <= j < v.len() && v[j] == (&k, &data@[k]);
            assert(in_segment(start, *v[j].0, v[j].1@.len()));
        }
        if flag {
            let j = choose|j: int| 0 <= j < cnt && in_segment(start, *(#[trigger] v[j]).0, v[j].1@.len());
            assert(data@.contains_key(*v[j].0));
        }
        assert forall|k: u64| #[trigger] data@.contains_key(k) && in_segment(start, k, data@[k]@.len())
            && (forall|k2: u64| data@.contains_key(k2) && in_segment(start, k2, data@[k2]@.len()) ==> k2 == k)
            implies s@ == bytes_as_chars(c_string_bytes(data@[k]@, start - k)) by {
            assert(v.contains((&k, &data@[k])));
            let m = choose|m: int| 0 <= m < v.len() && v[m] == (&k, &data@[k]);
            let ps = segment_pairs(v);
            assert forall|i: int| 0 <= i < ps.len() && i != m implies !in_segment(start, (#[trigger] ps[i]).0, ps[i].1.len()) by {
                assert(data@.contains_key(*v[i].0));
                if in_segment(start, ps[i].0, ps[i].1.len()) {
                    assert(*v[i].0 == k);
                    assert(v[i] == v[m]);
                }
            }
            lemma_matched_strings_one(ps, start, m);
        }
    }
    let mut string = String::new();
    push_escaped(&mut string, &s);
    if flag {
        Some(string)
    } else {
        None
    }
}

} // verus!

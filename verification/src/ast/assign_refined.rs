use vstd::prelude::*;
use vstd::utf8::*;
use vstd::string::StrSliceExecFns;
use crate::ast::Operator;

verus! {

broadcast use vstd::std_specs::vec::group_vec_axioms;

/// The arithmetic operator that a byte spells, if any: `+`, `-`, `*` or `/`.
pub open spec fn op_of_byte(c: u8) -> Option<Operator> {
    if c == 43 {
        Some(Operator::Add)
    } else if c == 45 {
        Some(Operator::Sub)
    } else if c == 42 {
        Some(Operator::Mul)
    } else if c == 47 {
        Some(Operator::Div)
    } else {
        None
    }
}

/// The byte at `i` is a mark: a bracket, `+` or `/`, or a `-` or `*`
/// followed by a space.
pub open spec fn is_mark(b: Seq<u8>, i: int) -> bool {
    let c = b[i];
    c == 40 || c == 41 || c == 43 || c == 47 || ((c == 45 || c == 42) && b[i + 1] == 32)
}

/// The positions of the marks among the first `n` bytes of `b`, in order.
pub open spec fn marks(b: Seq<u8>, n: int) -> Seq<usize>
    decreases n,
{
    if n <= 0 {
        Seq::empty()
    } else if is_mark(b, n - 1) {
        marks(b, n - 1).push((n - 1) as usize)
    } else {
        marks(b, n - 1)
    }
}

/// Scanning the marks from the `j`-th on with `nn` brackets open: the
/// position of the `)` that closes them all, if any.
pub open spec fn closing(b: Seq<u8>, ms: Seq<usize>, j: int, nn: int) -> Option<usize>
    decreases ms.len() - j,
{
    if j < 0 || j >= ms.len() {
        None
    } else if b[ms[j] as int] == 40 {
        closing(b, ms, j + 1, nn + 1)
    } else if b[ms[j] as int] == 41 {
        if nn == 1 {
            Some(ms[j])
        } else {
            closing(b, ms, j + 1, nn - 1)
        }
    } else {
        closing(b, ms, j + 1, nn)
    }
}

/// The open `(` positions, the brackets found (left, right, operator
/// inside) and whether all went well, after the first `k` marks: an `(`
/// is stacked; an operator takes the `)` that closes it and pairs it with
/// the last stacked `(`, which fails where none is stacked.
pub open spec fn scan(b: Seq<u8>, ms: Seq<usize>, k: int) -> (Seq<usize>, Seq<(usize, usize, Operator)>, bool)
    decreases k,
{
    if k <= 0 {
        (Seq::empty(), Seq::empty(), true)
    } else {
        let (st, brs, ok) = scan(b, ms, k - 1);
        let i = ms[k - 1];
        let c = b[i as int];
        match op_of_byte(c) {
            Some(mid) => match closing(b, ms, k - 1, 1) {
                Some(r) => if st.len() == 0 {
                    (st, brs, false)
                } else {
                    (st.drop_last(), brs.push((st.last(), r, mid)), ok)
                },
                None => (st, brs, ok),
            },
            None => if c == 40 {
                (st.push(i), brs, ok)
            } else {
                (st, brs, ok)
            },
        }
    }
}

/// The operator just left of the bracket at `left` (two bytes back), unless
/// the bracket starts the text or follows another `(`.
pub open spec fn left_op(b: Seq<u8>, left: usize) -> Option<Operator> {
    if left < 2 {
        None
    } else if b[left - 1] == 40 {
        None
    } else {
        op_of_byte(b[left - 2])
    }
}

/// The operator just right of the bracket at `right` (two bytes on), unless
/// the bracket ends the text or precedes another `)`.
pub open spec fn right_op(b: Seq<u8>, right: usize) -> Option<Operator> {
    if right + 2 >= b.len() {
        None
    } else if b[right + 1] == 41 {
        None
    } else {
        op_of_byte(b[right + 2])
    }
}

/// Whether a pair of brackets around an operation `m`, between the
/// operators `l` and `r`, can go without changing the meaning.
pub open spec fn drops(l: Option<Operator>, m: Option<Operator>, r: Option<Operator>) -> bool {
    match m {
        None => false,
        Some(mid) => {
            let additive = mid == Operator::Add || mid == Operator::Sub;
            let multiplicative = mid == Operator::Mul || mid == Operator::Div;
            match (l, r) {
                (Some(lop), Some(rop)) => if additive {
                    !(lop == Operator::Sub || lop == Operator::Mul || lop == Operator::Div || rop == Operator::Mul
                        || rop == Operator::Div)
                } else if multiplicative {
                    lop != Operator::Div
                } else {
                    false
                },
                (Some(lop), None) => lop == Operator::Add || (lop == Operator::Sub && multiplicative) || (lop
                    == Operator::Mul && mid == Operator::Mul),
                (None, Some(rop)) => if additive {
                    rop == Operator::Add || rop == Operator::Sub
                } else {
                    multiplicative
                },
                (None, None) => true,
            }
        },
    }
}

/// The bytes with both brackets of each pair in `brs` that can go set to 0.
pub open spec fn zeroed(b: Seq<u8>, brs: Seq<(usize, usize, Operator)>) -> Seq<u8>
    decreases brs.len(),
{
    if brs.len() == 0 {
        b
    } else {
        let z = zeroed(b, brs.drop_last());
        let (l, r, m) = brs.last();
        if drops(left_op(b, l), Some(m), right_op(b, r)) {
            z.update(l as int, 0).update(r as int, 0)
        } else {
            z
        }
    }
}

/// The first `*` from `i` on, after an `=` (met before `i` where `seen_eq`),
/// that is not followed by a space: a dereference on the right side.
pub open spec fn star_at(z: Seq<u8>, i: int, seen_eq: bool) -> Option<usize>
    decreases z.len() - i,
{
    if i < 0 || i >= z.len() {
        None
    } else {
        let eq = seen_eq || z[i] == 61;
        if z[i] == 42 && z[i + 1] != 32 && eq {
            Some(i as usize)
        } else {
            star_at(z, i + 1, eq)
        }
    }
}

/// The bytes other than 0.
pub open spec fn nonzero(v: Seq<u8>) -> Seq<u8>
    decreases v.len(),
{
    if v.len() == 0 {
        v
    } else if v.last() == 0 {
        nonzero(v.drop_last())
    } else {
        nonzero(v.drop_last()).push(v.last())
    }
}

/// The bytes of an assignment with the brackets that can go taken out, and
/// the dereferenced operation on the right side (where there is one, and
/// any operator or bracket at all) put in brackets.
pub open spec fn refined_bytes(b: Seq<u8>) -> Seq<u8> {
    let ms = marks(b, b.len() as int);
    let z = zeroed(b, scan(b, ms, ms.len() as int).1);
    let v = match star_at(z, 0, false) {
        Some(i) => if ms.len() != 0 {
            z.insert(i + 1, 40).push(41)
        } else {
            z
        },
        None => z,
    };
    nonzero(v)
}

/// The text can be refined: it does not end in `-` or `*`, and each
/// operator's closing bracket has an opening one to pair with.
pub open spec fn refine_ok(b: Seq<u8>) -> bool {
    &&& b.len() > 0 ==> b.last() != 45 && b.last() != 42
    &&& scan(b, marks(b, b.len() as int), marks(b, b.len() as int).len() as int).2
}

/// `String::from_utf8`, on bytes that are valid UTF-8, with the error case
/// unwrapped: the string the bytes encode.
#[verifier::external_body]
fn string_from_utf8(bytes: Vec<u8>) -> (s: String)
    requires
        valid_utf8(bytes@),
    ensures
        s@ == decode_utf8(bytes@),
{
    String::from_utf8(bytes).unwrap()
}

/// A byte below 0x80 is valid UTF-8 alone.
proof fn lemma_ascii_byte_valid(c: u8)
    requires
        c < 128,
    ensures
        valid_utf8(seq![c]),
{
    reveal_with_fuel(valid_utf8, 2);
    assert((c & 0x7F) as u32 <= 0x7f) by (bit_vector);
    assert(pop_first_scalar(seq![c]) =~= Seq::<u8>::empty());
}

/// Around a byte below 0x80, what comes before and what comes after are
/// valid UTF-8 each.
proof fn lemma_ascii_split(v: Seq<u8>, i: int)
    requires
        valid_utf8(v),
        0 <= i < v.len(),
        v[i] < 128,
    ensures
        valid_utf8(v.subrange(0, i)),
        valid_utf8(v.subrange(i + 1, v.len() as int)),
{
    is_char_boundary_iff_not_is_continuation_byte(v, i);
    valid_utf8_split(v, i);
    let s = v.subrange(i, v.len() as int);
    assert(s[0] == v[i]);
    assert(pop_first_scalar(s) =~= v.subrange(i + 1, v.len() as int));
}

/// Setting a byte below 0x80 to another such byte keeps UTF-8 valid.
proof fn lemma_set_ascii(v: Seq<u8>, i: int, c: u8)
    requires
        valid_utf8(v),
        0 <= i < v.len(),
        v[i] < 128,
        c < 128,
    ensures
        valid_utf8(v.update(i, c)),
{
    lemma_ascii_split(v, i);
    lemma_ascii_byte_valid(c);
    let a = v.subrange(0, i);
    let d = v.subrange(i + 1, v.len() as int);
    valid_utf8_concat(a, seq![c]);
    valid_utf8_concat(a + seq![c], d);
    assert(a + seq![c] + d =~= v.update(i, c));
}

/// Inserting a byte below 0x80 just after another keeps UTF-8 valid.
proof fn lemma_insert_after_ascii(v: Seq<u8>, i: int, c: u8)
    requires
        valid_utf8(v),
        0 <= i < v.len(),
        v[i] < 128,
        c < 128,
    ensures
        valid_utf8(v.insert(i + 1, c)),
{
    lemma_ascii_split(v, i);
    lemma_ascii_byte_valid(v[i]);
    lemma_ascii_byte_valid(c);
    let a = v.subrange(0, i);
    let d = v.subrange(i + 1, v.len() as int);
    valid_utf8_concat(a, seq![v[i]]);
    valid_utf8_concat(a + seq![v[i]], seq![c]);
    valid_utf8_concat(a + seq![v[i]] + seq![c], d);
    assert(a + seq![v[i]] + seq![c] + d =~= v.insert(i + 1, c));
}

proof fn lemma_nonzero_add(a: Seq<u8>, b: Seq<u8>)
    ensures
        nonzero(a + b) == nonzero(a) + nonzero(b),
    decreases b.len(),
{
    if b.len() == 0 {
        assert(a + b =~= a);
        assert(nonzero(a) + nonzero(b) =~= nonzero(a));
    } else {
        assert((a + b).drop_last() =~= a + b.drop_last());
        lemma_nonzero_add(a, b.drop_last());
        if b.last() != 0 {
            assert(nonzero(a) + nonzero(b.drop_last()).push(b.last()) =~= (nonzero(a) + nonzero(b.drop_last())).push(b.last()));
        }
    }
}

proof fn lemma_nonzero_id(v: Seq<u8>)
    requires
        forall|i: int| 0 <= i < v.len() ==> v[i] != 0,
    ensures
        nonzero(v) == v,
    decreases v.len(),
{
    if v.len() > 0 {
        lemma_nonzero_id(v.drop_last());
        assert(v.drop_last().push(v.last()) =~= v);
    }
}

/// Taking the zero bytes out of valid UTF-8 leaves valid UTF-8.
proof fn lemma_nonzero_valid(v: Seq<u8>)
    requires
        valid_utf8(v),
    ensures
        valid_utf8(nonzero(v)),
    decreases v.len(),
{
    if v.len() > 0 {
        let k = length_of_first_scalar(v);
        let h = v.subrange(0, k);
        let t = v.subrange(k, v.len() as int);
        assert(t == pop_first_scalar(v));
        lemma_nonzero_valid(t);
        assert(v =~= h + t);
        lemma_nonzero_add(h, t);
        reveal_with_fuel(is_char_boundary, 2);
        assert(is_char_boundary(v, k));
        valid_utf8_split(v, k);
        if k == 1 && v[0] == 0 {
            assert(h.drop_last() =~= Seq::<u8>::empty());
            reveal_with_fuel(nonzero, 2);
            assert(nonzero(h) =~= Seq::<u8>::empty());
            assert(nonzero(h) + nonzero(t) =~= nonzero(t));
        } else {
            assert forall|i: int| 0 <= i < h.len() implies h[i] != 0 by {
                if i > 0 {
                    assert(is_continuation_byte(v[i]));
                }
            }
            lemma_nonzero_id(h);
            valid_utf8_concat(h, nonzero(t));
        }
    }
}

/// The marks lie before `n`, in order, and are marks.
proof fn lemma_marks(b: Seq<u8>, n: int)
    requires
        0 <= n <= usize::MAX,
    ensures
        forall|j: int| 0 <= j < marks(b, n).len() ==> (#[trigger] marks(b, n)[j] as int) < n && is_mark(b, marks(b, n)[j] as int),
    decreases n,
{
    if n > 0 {
        lemma_marks(b, n - 1);
        let m = marks(b, n - 1);
        assert forall|j: int| 0 <= j < marks(b, n).len()
            implies (#[trigger] marks(b, n)[j] as int) < n && is_mark(b, marks(b, n)[j] as int) by {
            if j < m.len() {
                assert(marks(b, n)[j] == m[j]);
            }
        }
    }
}

/// A closing bracket found is a `)` among the marks.
proof fn lemma_closing(b: Seq<u8>, ms: Seq<usize>, j: int, nn: int)
    ensures
        closing(b, ms, j, nn) matches Some(r) ==> ms.contains(r) && b[r as int] == 41,
    decreases ms.len() - j,
{
    if 0 <= j < ms.len() {
        if b[ms[j] as int] == 40 {
            lemma_closing(b, ms, j + 1, nn + 1);
        } else if b[ms[j] as int] == 41 {
            if nn != 1 {
                lemma_closing(b, ms, j + 1, nn - 1);
            }
        } else {
            lemma_closing(b, ms, j + 1, nn);
        }
    }
}

/// The marks of `ms` that are positions of `b`.
pub open spec fn marks_in(b: Seq<u8>, ms: Seq<usize>) -> bool {
    forall|j: int| 0 <= j < ms.len() ==> (#[trigger] ms[j] as int) < b.len()
}

/// What the scan stacks is an `(`, and each pair it finds is an `(` and a
/// `)` of the text.
proof fn lemma_scan(b: Seq<u8>, ms: Seq<usize>, k: int)
    requires
        marks_in(b, ms),
        k <= ms.len(),
    ensures
        forall|j: int| 0 <= j < scan(b, ms, k).0.len() ==> {
            let e = #[trigger] scan(b, ms, k).0[j];
            (e as int) < b.len() && b[e as int] == 40
        },
        forall|j: int| 0 <= j < scan(b, ms, k).1.len() ==> {
            let (l, r, m) = #[trigger] scan(b, ms, k).1[j];
            &&& (l as int) < b.len() && b[l as int] == 40
            &&& (r as int) < b.len() && b[r as int] == 41
        },
        !scan(b, ms, k).2 ==> forall|k2: int| k <= k2 <= ms.len() ==> !(#[trigger] scan(b, ms, k2).2),
    decreases k,
{
    if k > 0 {
        lemma_scan(b, ms, k - 1);
        lemma_closing(b, ms, k - 1, 1);
        let (st, brs, ok) = scan(b, ms, k - 1);
        match closing(b, ms, k - 1, 1) {
            Some(r) => {
                let q = choose|q: int| 0 <= q < ms.len() && ms[q] == r;
                assert((ms[q] as int) < b.len());
            },
            None => {},
        }
        assert forall|j: int| 0 <= j < scan(b, ms, k).0.len() implies {
            let e = #[trigger] scan(b, ms, k).0[j];
            (e as int) < b.len() && b[e as int] == 40
        } by {
            if j < st.len() {
                assert(scan(b, ms, k).0[j] == st[j]);
            }
        }
        assert forall|j: int| 0 <= j < scan(b, ms, k).1.len() implies {
            let (l, r, m) = #[trigger] scan(b, ms, k).1[j];
            &&& (l as int) < b.len() && b[l as int] == 40
            &&& (r as int) < b.len() && b[r as int] == 41
        } by {
            if j < brs.len() {
                assert(scan(b, ms, k).1[j] == brs[j]);
            }
        }
    }
    if !scan(b, ms, k).2 {
        lemma_scan_stays_failed(b, ms, k, ms.len() as int);
    }
}

proof fn lemma_scan_stays_failed(b: Seq<u8>, ms: Seq<usize>, k: int, k2: int)
    requires
        !scan(b, ms, k).2,
        0 <= k <= k2,
    ensures
        forall|k3: int| k <= k3 <= k2 ==> !(#[trigger] scan(b, ms, k3).2),
    decreases k2 - k,
{
    if k < k2 {
        assert(!scan(b, ms, k + 1).2);
        lemma_scan_stays_failed(b, ms, k + 1, k2);
    }
}

/// The operator a byte spells (see `op_of_byte`).
fn byte_op(c: u8) -> (r: Option<Operator>)
    ensures
        r == op_of_byte(c),
{
    if c == 43 {
        Some(Operator::Add)
    } else if c == 45 {
        Some(Operator::Sub)
    } else if c == 42 {
        Some(Operator::Mul)
    } else if c == 47 {
        Some(Operator::Div)
    } else {
        None
    }
}

/// The positions of the marks of `bytes` (see `marks`).
fn find_marks(bytes: &Vec<u8>) -> (ms: Vec<usize>)
    requires
        bytes@.len() > 0 ==> bytes@.last() != 45 && bytes@.last() != 42,
    ensures
        ms@ == marks(bytes@, bytes@.len() as int),
{
    let mut ms: Vec<usize> = Vec::new();
    let mut i: usize = 0;
    while i < bytes.len()
        invariant
            i <= bytes@.len(),
            ms@ == marks(bytes@, i as int),
            bytes@.len() > 0 ==> bytes@.last() != 45 && bytes@.last() != 42,
        decreases bytes@.len() - i,
    {
        let c = bytes[i];
        let mark = if c == 40 || c == 41 || c == 43 || c == 47 {
            true
        } else if c == 45 || c == 42 {
            bytes[i + 1] == 32
        } else {
            false
        };
        if mark {
            ms.push(i);
        }
        i = i + 1;
    }
    ms
}

/// The `)` that closes the operator at the `k`-th mark (see `closing`).
fn find_closing(bytes: &Vec<u8>, ms: &Vec<usize>, k: usize) -> (r: Option<usize>)
    requires
        marks_in(bytes@, ms@),
    ensures
        r == closing(bytes@, ms@, k as int, 1),
{
    let mut nn: u128 = 1;
    let mut j: usize = k;
    while j < ms.len()
        invariant
            k <= j,
            1 <= nn <= j - k + 1,
            j <= usize::MAX,
            marks_in(bytes@, ms@),
            closing(bytes@, ms@, k as int, 1) == closing(bytes@, ms@, j as int, nn as int),
        decreases ms@.len() - j,
    {
        let c = bytes[ms[j]];
        if c == 40 {
            nn = nn + 1;
        } else if c == 41 {
            if nn == 1 {
                return Some(ms[j]);
            }
            nn = nn - 1;
        }
        j = j + 1;
    }
    None
}

/// The pairs of brackets around operators (see `scan`).
fn pair_brackets(bytes: &Vec<u8>, ms: &Vec<usize>) -> (brs: Vec<(usize, usize, Operator)>)
    requires
        marks_in(bytes@, ms@),
        scan(bytes@, ms@, ms@.len() as int).2,
    ensures
        brs@ == scan(bytes@, ms@, ms@.len() as int).1,
{
    let mut st: Vec<usize> = Vec::new();
    let mut brs: Vec<(usize, usize, Operator)> = Vec::new();
    let mut k: usize = 0;
    while k < ms.len()
        invariant
            k <= ms@.len(),
            marks_in(bytes@, ms@),
            scan(bytes@, ms@, ms@.len() as int).2,
            st@ == scan(bytes@, ms@, k as int).0,
            brs@ == scan(bytes@, ms@, k as int).1,
        decreases ms@.len() - k,
    {
        proof {
            lemma_scan(bytes@, ms@, k as int + 1);
        }
        let i = ms[k];
        let c = bytes[i];
        match byte_op(c) {
            Some(mid) => {
                match find_closing(bytes, ms, k) {
                    Some(r) => {
                        let l = st.pop().unwrap();
                        brs.push((l, r, mid));
                    },
                    None => {},
                }
            },
            None => {
                if c == 40 {
                    st.push(i);
                }
            },
        }
        k = k + 1;
    }
    brs
}

/// Whether a pair of brackets between the operators `left_operator` and
/// `right_operator` around `middle_operator` can go (see `drops`).
fn is_delete_bracket(left_operator: Option<Operator>, middle_operator: Option<Operator>, right_operator: Option<Operator>) -> (r: bool)
    ensures
        r == drops(left_operator, middle_operator, right_operator),
{
    let middle_operator = match middle_operator {
        Some(op) => op,
        None => return false,
    };
    if let Some(lop) = left_operator {
        if let Some(rop) = right_operator {
            if middle_operator == Operator::Add || middle_operator == Operator::Sub {
                if lop == Operator::Sub {
                    return false;
                } else if lop == Operator::Mul || lop == Operator::Div || rop == Operator::Mul || rop == Operator::Div {
                    return false;
                } else {
                    return true;
                }
            } else if middle_operator == Operator::Mul || middle_operator == Operator::Div {
                if lop == Operator::Div {
                    return false;
                } else {
                    return true;
                }
            }
        } else {
            if lop == Operator::Add {
                return true;
            } else if lop == Operator::Sub {
                if middle_operator == Operator::Mul || middle_operator == Operator::Div {
                    return true;
                }
            } else if lop == Operator::Mul {
                if middle_operator == Operator::Mul {
                    return true;
                }
            } else if lop == Operator::Div {
                return false;
            }
        }
    } else {
        if let Some(rop) = right_operator {
            if middle_operator == Operator::Add || middle_operator == Operator::Sub {
                if rop == Operator::Add || rop == Operator::Sub {
                    return true;
                }
            } else if middle_operator == Operator::Mul || middle_operator == Operator::Div {
                return true;
            }
        } else {
            return true;
        }
    }
    false
}

/// The operator left of the bracket at `left` (see `left_op`).
fn left_operator(bytes: &Vec<u8>, left: usize) -> (r: Option<Operator>)
    requires
        left < bytes@.len(),
    ensures
        r == left_op(bytes@, left),
{
    if left < 2 {
        None
    } else if bytes[left - 1] == 40 {
        None
    } else {
        byte_op(bytes[left - 2])
    }
}

/// The operator right of the bracket at `right` (see `right_op`).
fn right_operator(bytes: &Vec<u8>, right: usize) -> (r: Option<Operator>)
    requires
        right < bytes@.len(),
    ensures
        r == right_op(bytes@, right),
{
    if bytes.len() - right <= 2 {
        None
    } else if bytes[right + 1] == 41 {
        None
    } else {
        byte_op(bytes[right + 2])
    }
}

/// The first dereference after the `=` (see `star_at`).
fn find_star(z: &Vec<u8>) -> (r: Option<usize>)
    requires
        z@.len() > 0 ==> z@.last() != 42,
    ensures
        r == star_at(z@, 0, false),
        r matches Some(i) ==> i < z@.len() && z@[i as int] == 42,
{
    let mut seen_eq = false;
    let mut i: usize = 0;
    while i < z.len()
        invariant
            i <= z@.len(),
            z@.len() > 0 ==> z@.last() != 42,
            star_at(z@, 0, false) == star_at(z@, i as int, seen_eq),
        decreases z@.len() - i,
    {
        if z[i] == 61 {
            seen_eq = true;
        }
        if z[i] == 42 && z[i + 1] != 32 && seen_eq {
            return Some(i);
        }
        i = i + 1;
    }
    None
}

/// The assignment text with the brackets that can go taken out, and the
/// dereferenced operation on its right side put in brackets (see
/// `refined_bytes`; the text is taken and given as UTF-8 bytes).
pub fn refine_assign_str_bracket(assign_str: String) -> (r: String)
    requires
        refine_ok(encode_utf8(assign_str@)),
    ensures
        r@ == decode_utf8(refined_bytes(encode_utf8(assign_str@))),
{
    let bytes = assign_str.as_str().as_bytes_vec();
    let ghost b = bytes@;
    proof {
        encode_utf8_valid_utf8(assign_str@);
        lemma_marks(b, b.len() as int);
    }
    let ms = find_marks(&bytes);
    let brs = pair_brackets(&bytes, &ms);
    proof {
        lemma_scan(b, ms@, ms@.len() as int);
    }
    let mut z = assign_str.as_str().as_bytes_vec();
    let mut k: usize = 0;
    proof {
        assert(brs@.take(0) =~= Seq::<(usize, usize, Operator)>::empty());
    }
    while k < brs.len()
        invariant
            k <= brs@.len(),
            bytes@ == b,
            brs@ == scan(b, ms@, ms@.len() as int).1,
            forall|j: int| 0 <= j < brs@.len() ==> {
                let (l, r, m) = #[trigger] brs@[j];
                &&& (l as int) < b.len() && b[l as int] == 40
                &&& (r as int) < b.len() && b[r as int] == 41
            },
            z@.len() == b.len(),
            valid_utf8(z@),
            z@ == zeroed(b, brs@.take(k as int)),
            forall|p: int| 0 <= p < b.len() ==> z@[p] == b[p] || z@[p] == 0,
        decreases brs@.len() - k,
    {
        let (l, r, mid) = brs[k];
        let lop = left_operator(&bytes, l);
        let rop = right_operator(&bytes, r);
        proof {
            assert(brs@.take(k as int + 1).drop_last() =~= brs@.take(k as int));
            assert(brs@.take(k as int + 1).last() == brs@[k as int]);
        }
        if is_delete_bracket(lop, Some(mid), rop) {
            proof {
                lemma_set_ascii(z@, l as int, 0);
            }
            z.set(l, 0);
            proof {
                lemma_set_ascii(z@, r as int, 0);
            }
            z.set(r, 0);
        }
        k = k + 1;
    }
    proof {
        assert(brs@.take(k as int) =~= brs@);
    }
    match find_star(&z) {
        Some(i) => {
            if ms.len() != 0 {
                proof {
                    lemma_insert_after_ascii(z@, i as int, 40);
                }
                z.insert(i + 1, 40);
                proof {
                    lemma_ascii_byte_valid(41);
                    valid_utf8_concat(z@, seq![41u8]);
                    assert(z@.push(41) =~= z@ + seq![41u8]);
                }
                z.push(41);
            }
        },
        None => {},
    }
    let mut out: Vec<u8> = Vec::new();
    let mut i: usize = 0;
    proof {
        assert(z@.take(0) =~= Seq::<u8>::empty());
    }
    while i < z.len()
        invariant
            i <= z@.len(),
            out@ == nonzero(z@.take(i as int)),
        decreases z@.len() - i,
    {
        proof {
            assert(z@.take(i as int + 1).drop_last() =~= z@.take(i as int));
            assert(z@.take(i as int + 1).last() == z@[i as int]);
        }
        if z[i] != 0 {
            out.push(z[i]);
        }
        i = i + 1;
    }
    proof {
        assert(z@.take(i as int) =~= z@);
        lemma_nonzero_valid(z@);
    }
    string_from_utf8(out)
}

/// The bytes other than brackets.
pub open spec fn unbracketed(v: Seq<u8>) -> Seq<u8>
    decreases v.len(),
{
    if v.len() == 0 {
        v
    } else if v.last() == 40 || v.last() == 41 {
        unbracketed(v.drop_last())
    } else {
        unbracketed(v.drop_last()).push(v.last())
    }
}

/// The bytes other than brackets and zeros.
pub open spec fn kept_bytes(v: Seq<u8>) -> Seq<u8>
    decreases v.len(),
{
    if v.len() == 0 {
        v
    } else if v.last() == 40 || v.last() == 41 || v.last() == 0 {
        kept_bytes(v.drop_last())
    } else {
        kept_bytes(v.drop_last()).push(v.last())
    }
}

proof fn lemma_kept_bytes_add(a: Seq<u8>, b: Seq<u8>)
    ensures
        kept_bytes(a + b) == kept_bytes(a) + kept_bytes(b),
    decreases b.len(),
{
    if b.len() == 0 {
        assert(a + b =~= a);
        assert(kept_bytes(a) + kept_bytes(b) =~= kept_bytes(a));
    } else {
        assert((a + b).drop_last() =~= a + b.drop_last());
        lemma_kept_bytes_add(a, b.drop_last());
        assert(kept_bytes(a) + kept_bytes(b.drop_last()).push(b.last()) =~= (kept_bytes(a) + kept_bytes(b.drop_last())).push(b.last()));
    }
}

proof fn lemma_kept_bytes_drop(c: u8)
    requires
        c == 40 || c == 41 || c == 0,
    ensures
        kept_bytes(seq![c]) == Seq::<u8>::empty(),
{
    reveal_with_fuel(kept_bytes, 2);
    assert(seq![c].drop_last() =~= Seq::<u8>::empty());
}

/// Setting a bracket or a zero to zero leaves the other bytes as they were.
proof fn lemma_kept_bytes_update(v: Seq<u8>, i: int)
    requires
        0 <= i < v.len(),
        v[i] == 40 || v[i] == 41 || v[i] == 0,
    ensures
        kept_bytes(v.update(i, 0)) == kept_bytes(v),
{
    let a = v.subrange(0, i);
    let d = v.subrange(i + 1, v.len() as int);
    assert(v =~= a + seq![v[i]] + d);
    assert(v.update(i, 0) =~= a + seq![0u8] + d);
    lemma_kept_bytes_add(a + seq![v[i]], d);
    lemma_kept_bytes_add(a, seq![v[i]]);
    lemma_kept_bytes_add(a + seq![0u8], d);
    lemma_kept_bytes_add(a, seq![0u8]);
    lemma_kept_bytes_drop(v[i]);
    lemma_kept_bytes_drop(0);
}

/// Zeroing the paired brackets leaves the other bytes as they were.
proof fn lemma_zeroed_core(b: Seq<u8>, brs: Seq<(usize, usize, Operator)>)
    requires
        forall|j: int| 0 <= j < brs.len() ==> {
            let (l, r, m) = #[trigger] brs[j];
            &&& (l as int) < b.len() && b[l as int] == 40
            &&& (r as int) < b.len() && b[r as int] == 41
        },
    ensures
        zeroed(b, brs).len() == b.len(),
        forall|p: int| 0 <= p < b.len() ==> zeroed(b, brs)[p] == b[p] || zeroed(b, brs)[p] == 0,
        kept_bytes(zeroed(b, brs)) == kept_bytes(b),
    decreases brs.len(),
{
    if brs.len() > 0 {
        assert forall|j: int| 0 <= j < brs.drop_last().len() implies {
            let (l, r, m) = #[trigger] brs.drop_last()[j];
            &&& (l as int) < b.len() && b[l as int] == 40
            &&& (r as int) < b.len() && b[r as int] == 41
        } by {
            assert(brs.drop_last()[j] == brs[j]);
        }
        lemma_zeroed_core(b, brs.drop_last());
        let z = zeroed(b, brs.drop_last());
        let (l, r, m) = brs.last();
        assert(brs.last() == brs[brs.len() - 1]);
        if drops(left_op(b, l), Some(m), right_op(b, r)) {
            lemma_kept_bytes_update(z, l as int);
            lemma_kept_bytes_update(z.update(l as int, 0), r as int);
        }
    }
}

proof fn lemma_unbracketed_nonzero(v: Seq<u8>)
    ensures
        unbracketed(nonzero(v)) == kept_bytes(v),
    decreases v.len(),
{
    if v.len() > 0 {
        lemma_unbracketed_nonzero(v.drop_last());
        if v.last() != 0 {
            assert(nonzero(v).drop_last() =~= nonzero(v.drop_last()));
        }
    }
}

proof fn lemma_unbracketed_kept(v: Seq<u8>)
    requires
        forall|i: int| 0 <= i < v.len() ==> v[i] != 0,
    ensures
        unbracketed(v) == kept_bytes(v),
    decreases v.len(),
{
    if v.len() > 0 {
        lemma_unbracketed_kept(v.drop_last());
    }
}

/// Refining an assignment only takes brackets out and puts brackets in:
/// with all brackets taken out, a text without zero bytes is what it was.
pub proof fn lemma_refine_keeps_text(b: Seq<u8>)
    requires
        b.len() <= usize::MAX,
        forall|i: int| 0 <= i < b.len() ==> b[i] != 0,
    ensures
        unbracketed(refined_bytes(b)) == unbracketed(b),
{
    let ms = marks(b, b.len() as int);
    lemma_marks(b, b.len() as int);
    assert(marks_in(b, ms));
    lemma_scan(b, ms, ms.len() as int);
    let brs = scan(b, ms, ms.len() as int).1;
    lemma_zeroed_core(b, brs);
    let z = zeroed(b, brs);
    let v = match star_at(z, 0, false) {
        Some(i) => if ms.len() != 0 { z.insert(i + 1, 40).push(41) } else { z },
        None => z,
    };
    match star_at(z, 0, false) {
        Some(i) => {
            if ms.len() != 0 {
                lemma_star_at(z, 0, false);
                let a = z.subrange(0, i + 1);
                let d = z.subrange(i + 1, z.len() as int);
                assert(v =~= a + seq![40u8] + d + seq![41u8]);
                assert(z =~= a + d);
                lemma_kept_bytes_add(a + seq![40u8] + d, seq![41u8]);
                lemma_kept_bytes_add(a + seq![40u8], d);
                lemma_kept_bytes_add(a, seq![40u8]);
                lemma_kept_bytes_add(a, d);
                lemma_kept_bytes_drop(40);
                lemma_kept_bytes_drop(41);
            }
        },
        None => {},
    }
    lemma_unbracketed_nonzero(v);
    lemma_unbracketed_kept(b);
}

proof fn lemma_star_at(z: Seq<u8>, i: int, seen_eq: bool)
    requires
        z.len() <= usize::MAX,
    ensures
        star_at(z, i, seen_eq) matches Some(k) ==> i <= k < z.len(),
    decreases z.len() - i,
{
    if 0 <= i < z.len() {
        let eq = seen_eq || z[i] == 61;
        if !(z[i] == 42 && z[i + 1] != 32 && eq) {
            lemma_star_at(z, i + 1, eq);
        }
    }
}

} // verus!

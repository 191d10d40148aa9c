use vstd::prelude::*;
use std::collections::HashMap;
use crate::data_flow::RegisterRecord;
use crate::data_convert::{get_c_string_from_data, in_segment, has_terminator, start_in_data, data_string};

verus! {

/// The number of `%` characters in `s`.
pub open spec fn count_pct(s: Seq<char>) -> nat
    decreases s.len(),
{
    if s.len() == 0 {
        0
    } else {
        count_pct(s.drop_last()) + if s.last() == '%' { 1nat } else { 0nat }
    }
}

proof fn lemma_count_pct_prefix(s: Seq<char>, k: int)
    requires
        0 <= k <= s.len(),
    ensures
        count_pct(s.take(k)) <= count_pct(s),
    decreases s.len() - k,
{
    if k < s.len() {
        lemma_count_pct_prefix(s, k + 1);
        assert(s.take(k + 1).drop_last() =~= s.take(k));
    } else {
        assert(s.take(k) =~= s);
    }
}

/// The format string of a call, read at `start` from the data segments
/// (empty when no segment holds it).
pub open spec fn format_string(data: &HashMap<u64, Vec<u8>>, start: u64) -> Seq<char> {
    if start_in_data(start, data@) {
        data_string(data, start)
    } else {
        Seq::empty()
    }
}

/// The argument count `analyse_extern_function` finds for the library
/// function `name` called with `parameters`.
pub open spec fn extern_arity(name: Seq<char>, parameters: Seq<RegisterRecord>, data: &HashMap<u64, Vec<u8>>) -> (usize, bool) {
    match fixed_arity(name) {
        Some(f) => f,
        None => match parameters[0] {
            RegisterRecord::Symbol(_) => (0usize, false),
            RegisterRecord::Number(n) => ((1 + count_pct(format_string(data, n.value as u64))) as usize, false),
        },
    }
}

/// `analyse_extern_function` reads the format string of a call of `name`
/// only where it can, and its count fits in a `usize`.
pub open spec fn extern_call_ok(name: Seq<char>, parameters: Seq<RegisterRecord>, data: &HashMap<u64, Vec<u8>>) -> bool {
    is_format_function(name) ==> {
        &&& parameters.len() > 0
        &&& (parameters[0] matches RegisterRecord::Number(n) ==> {
            &&& strings_readable(data@, n.value as u64)
            &&& 1 + count_pct(format_string(data, n.value as u64)) <= usize::MAX
        })
    }
}

/// A library function whose first argument is a format string.
pub open spec fn is_format_function(name: Seq<char>) -> bool {
    name == "printf"@ || name == "scanf"@ || name == "sprintf"@ || name == "fprintf"@
}

/// The argument count and the "fixed" mark of a library function that takes
/// no format string (`None` for one that does).
pub open spec fn fixed_arity(name: Seq<char>) -> Option<(usize, bool)> {
    if is_format_function(name) {
        None
    } else if name == "rand"@ {
        Some((0usize, true))
    } else if name == "time"@ || name == "srand"@ || name == "puts"@ {
        Some((1usize, true))
    } else {
        Some((0usize, false))
    }
}

/// The data segments are laid out within the address space, and a string
/// read at an address a segment holds ends in that segment.
pub open spec fn strings_readable(data: Map<u64, Vec<u8>>, start: u64) -> bool {
    &&& forall|k: u64| #[trigger] data.contains_key(k) ==> k + data[k]@.len() <= u64::MAX
    &&& forall|k: u64| #[trigger] data.contains_key(k) && in_segment(start, k, data[k]@.len())
        ==> has_terminator(data[k]@, start - k)
}

/// One more than the number of `%` characters of `s`.
fn count_format_arguments(s: &String) -> (n: usize)
    requires
        1 + count_pct(s@) <= usize::MAX,
    ensures
        n == 1 + count_pct(s@),
{
    let mut n: usize = 1;
    let ghost v = s@;
    let ghost mut k: int = 0;
    for c in it: s.as_str().chars()
        invariant
            it.seq() == v,
            v == s@,
            k == it.index(),
            1 + count_pct(v) <= usize::MAX,
            n == 1 + count_pct(v.take(k)),
    {
        proof {
            assert(k < v.len());
            assert(c == v[k]);
            assert(v.take(k + 1).drop_last() =~= v.take(k));
        }
        proof {
            lemma_count_pct_prefix(v, k + 1);
        }
        if c == '%' {
            n = n + 1;
        }
        proof {
            k = k + 1;
        }
    }
    proof {
        assert(v.take(k) =~= v);
    }
    n
}

/// How many arguments a call of the library function `name` passes, and
/// whether that count is fixed: a format function passes one more than the
/// `%`s of its format string (read from the data segments when the first
/// argument is a known address, none when it is a symbol); `rand` passes
/// none, `time`, `srand` and `puts` one; any other function is unknown.
pub fn analyse_extern_function(name: &String, parameters: &Vec<RegisterRecord>, data: &HashMap<u64, Vec<u8>>) -> (r: (usize, bool))
    requires
        extern_call_ok(name@, parameters@, data),
    ensures
        r == extern_arity(name@, parameters@, data),
{
    let is_format = *name == "printf".to_owned() || *name == "scanf".to_owned() || *name == "sprintf".to_owned()
        || *name == "fprintf".to_owned();
    if is_format {
        match parameters[0] {
            RegisterRecord::Number(number) => {
                let string = match get_c_string_from_data(number.value as u64, data) {
                    Some(string) => string,
                    None => String::new(),
                };
                let n = count_format_arguments(&string);
                (n, false)
            },
            RegisterRecord::Symbol(_) => (0, false),
        }
    } else if *name == "rand".to_owned() {
        (0, true)
    } else if *name == "time".to_owned() || *name == "srand".to_owned() || *name == "puts".to_owned() {
        (1, true)
    } else {
        (0, false)
    }
}

} // verus!

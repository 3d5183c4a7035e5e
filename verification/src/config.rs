//! Configuration resolution: the region and role checks, and the tag filter
//! parsed from its JSON form — an array of objects, each holding a `key` and
//! a `value` string.

use vstd::prelude::*;
use vstd::string::StrSliceExecFns;
use vstd::string::StringExecFns;

use crate::model::TagFilter;
use crate::model::TagFilterView;
use crate::strutil::char_from_u32;
use crate::strutil::push_char;

verus! {

/// A fatal configuration error: the run aborts before any network call.
#[derive(Clone, Copy, Debug, PartialEq, Eq, Structural)]
pub enum ConfigError {
    /// The region string is not one the provider recognizes.
    UnknownRegion,
    /// The role string is empty.
    EmptyRole,
    /// The tag filter is not a JSON array of `key`/`value` string objects.
    MalformedFilter,
    /// The tag filter parsed to an empty list.
    EmptyFilter,
    /// A filter entry has an empty key or an empty value.
    BlankFilterField,
}

/// Whether the provider recognizes a string as one of its region names. The
/// set is fixed by the client library, so the answer depends on the string
/// alone.
pub uninterp spec fn region_known_of(s: Seq<char>) -> bool;

/// Relies on the `FromStr` impl of `rusoto_core::Region`: it returns `Ok`
/// exactly for the provider's known region names, a fixed list, so the
/// outcome is a function of the string alone.
#[verifier::external_body]
fn region_is_known(s: &str) -> (r: bool)
    ensures
        r == region_known_of(s@),
{
    s.parse::<rusoto_core::Region>().is_ok()
}

/// JSON whitespace.
pub open spec fn is_ws(c: char) -> bool {
    c == ' ' || c == '\t' || c == '\n' || c == '\r'
}

/// The first position at or after `i` that does not hold whitespace.
pub open spec fn skip_ws(s: Seq<char>, i: int) -> int
    recommends
        0 <= i <= s.len(),
    decreases s.len() - i,
{
    if i < s.len() && is_ws(s[i]) {
        skip_ws(s, i + 1)
    } else {
        i
    }
}

/// The value of a hexadecimal digit, or a negative answer for any other
/// character.
pub open spec fn hex_val(c: char) -> int {
    if '0' <= c && c <= '9' {
        c as int - '0' as int
    } else if 'a' <= c && c <= 'f' {
        10 + c as int - 'a' as int
    } else if 'A' <= c && c <= 'F' {
        10 + c as int - 'A' as int
    } else {
        -1
    }
}

/// The value of four hexadecimal digits at `i`, or a negative answer when
/// any of them is not one.
pub open spec fn hex4(s: Seq<char>, i: int) -> int
    recommends
        0 <= i && i + 4 <= s.len(),
{
    if hex_val(s[i]) < 0 || hex_val(s[i + 1]) < 0 || hex_val(s[i + 2]) < 0 || hex_val(s[i + 3])
        < 0 {
        -1
    } else {
        4096 * hex_val(s[i]) + 256 * hex_val(s[i + 1]) + 16 * hex_val(s[i + 2]) + hex_val(
            s[i + 3],
        )
    }
}

/// The character a single-letter escape stands for.
pub open spec fn simple_escape(e: char) -> Option<char> {
    if e == '"' { Some('"') }
    else if e == '\\' { Some('\\') }
    else if e == '/' { Some('/') }
    else if e == 'b' { Some('\u{8}') }
    else if e == 'f' { Some('\u{c}') }
    else if e == 'n' { Some('\n') }
    else if e == 'r' { Some('\r') }
    else if e == 't' { Some('\t') }
    else { None }
}

/// The body of a JSON string from position `i` (just inside the opening
/// quote) to its closing quote: the decoded content and the position after
/// the quote. Unescaped control characters, bad escapes, lone surrogates and
/// an unterminated string all fail.
pub open spec fn parse_string_body(s: Seq<char>, i: int) -> Option<(Seq<char>, int)>
    decreases s.len() - i,
{
    if i < 0 || i >= s.len() {
        None
    } else if s[i] == '"' {
        Some((Seq::empty(), i + 1))
    } else if s[i] == '\\' {
        if i + 1 >= s.len() {
            None
        } else {
            let e = s[i + 1];
            if simple_escape(e) is Some {
                match parse_string_body(s, i + 2) {
                    None => None,
                    Some((rest, j)) => Some((seq![simple_escape(e)->Some_0] + rest, j)),
                }
            } else if e == 'u' {
                if i + 6 > s.len() {
                    None
                } else {
                    let h = hex4(s, i + 2);
                    if h < 0 {
                        None
                    } else if 0xD800 <= h < 0xDC00 {
                        if i + 12 > s.len() {
                            None
                        } else if s[i + 6] == '\\' && s[i + 7] == 'u' {
                            let l = hex4(s, i + 8);
                            if 0xDC00 <= l < 0xE000 {
                                let cp = 0x10000 + (h - 0xD800) * 0x400 + (l - 0xDC00);
                                match parse_string_body(s, i + 12) {
                                    None => None,
                                    Some((rest, j)) => Some((seq![cp as char] + rest, j)),
                                }
                            } else {
                                None
                            }
                        } else {
                            None
                        }
                    } else if 0xDC00 <= h < 0xE000 {
                        None
                    } else {
                        match parse_string_body(s, i + 6) {
                            None => None,
                            Some((rest, j)) => Some((seq![h as char] + rest, j)),
                        }
                    }
                }
            } else {
                None
            }
        }
    } else if (s[i] as u32) < 0x20 {
        None
    } else {
        match parse_string_body(s, i + 1) {
            None => None,
            Some((rest, j)) => Some((seq![s[i]] + rest, j)),
        }
    }
}

/// A whole JSON string starting at `i` with its opening quote.
pub open spec fn parse_json_string(s: Seq<char>, i: int) -> Option<(Seq<char>, int)> {
    if 0 <= i < s.len() && s[i] == '"' {
        parse_string_body(s, i + 1)
    } else {
        None
    }
}

/// One `"name": "value"` member: both strings, separated by a colon.
pub open spec fn parse_member(s: Seq<char>, i: int) -> Option<((Seq<char>, Seq<char>), int)> {
    match parse_json_string(s, i) {
        None => None,
        Some((name, j)) => {
            let k = skip_ws(s, j);
            if k < s.len() && s[k] == ':' {
                let l = skip_ws(s, k + 1);
                match parse_json_string(s, l) {
                    None => None,
                    Some((value, m)) => Some(((name, value), m)),
                }
            } else {
                None
            }
        },
    }
}

/// One filter object: exactly a `key` member and a `value` member, in either
/// order.
pub open spec fn parse_object(s: Seq<char>, i: int) -> Option<(TagFilterView, int)> {
    if 0 <= i < s.len() && s[i] == '{' {
        let j = skip_ws(s, i + 1);
        match parse_member(s, j) {
            None => None,
            Some(((n1, v1), k)) => {
                let l = skip_ws(s, k);
                if l < s.len() && s[l] == ',' {
                    let m = skip_ws(s, l + 1);
                    match parse_member(s, m) {
                        None => None,
                        Some(((n2, v2), p)) => {
                            let q = skip_ws(s, p);
                            if q < s.len() && s[q] == '}' {
                                if n1 == "key"@ && n2 == "value"@ {
                                    Some((TagFilterView { key: v1, value: v2 }, q + 1))
                                } else if n1 == "value"@ && n2 == "key"@ {
                                    Some((TagFilterView { key: v2, value: v1 }, q + 1))
                                } else {
                                    None
                                }
                            } else {
                                None
                            }
                        },
                    }
                } else {
                    None
                }
            },
        }
    } else {
        None
    }
}

/// The elements after the first: each a comma then an object, until the
/// closing bracket. The position guards only shield the recursion; a parsed
/// object always moves forward (`lemma_object_bounds`), so they never fire.
pub open spec fn parse_more_elements(s: Seq<char>, i: int) -> Option<(Seq<TagFilterView>, int)>
    decreases s.len() - i,
{
    let j = skip_ws(s, i);
    if j < s.len() && s[j] == ']' {
        Some((Seq::empty(), j + 1))
    } else if j < s.len() && s[j] == ',' {
        let k = skip_ws(s, j + 1);
        match parse_object(s, k) {
            None => None,
            Some((t, m)) => {
                if m <= i || m > s.len() {
                    None
                } else {
                    match parse_more_elements(s, m) {
                        None => None,
                        Some((rest, p)) => Some((seq![t] + rest, p)),
                    }
                }
            },
        }
    } else {
        None
    }
}

/// A JSON array of filter objects starting at `i`.
pub open spec fn parse_array(s: Seq<char>, i: int) -> Option<(Seq<TagFilterView>, int)> {
    if 0 <= i < s.len() && s[i] == '[' {
        let j = skip_ws(s, i + 1);
        if j < s.len() && s[j] == ']' {
            Some((Seq::empty(), j + 1))
        } else {
            match parse_object(s, j) {
                None => None,
                Some((t, k)) => {
                    if k <= i || k > s.len() {
                        None
                    } else {
                        match parse_more_elements(s, k) {
                            None => None,
                            Some((rest, p)) => Some((seq![t] + rest, p)),
                        }
                    }
                },
            }
        }
    } else {
        None
    }
}

/// The whole filter document: one array, surrounded only by whitespace.
pub open spec fn parse_filters_spec(s: Seq<char>) -> Option<Seq<TagFilterView>> {
    match parse_array(s, skip_ws(s, 0)) {
        None => None,
        Some((ts, j)) => {
            if skip_ws(s, j) == s.len() {
                Some(ts)
            } else {
                None
            }
        },
    }
}

/// Filter resolution: the JSON must parse, the list must not be empty, and
/// every key and value must be non-empty.
pub open spec fn filter_of_json(s: Seq<char>) -> Result<Seq<TagFilterView>, ConfigError> {
    match parse_filters_spec(s) {
        None => Err(ConfigError::MalformedFilter),
        Some(ts) => {
            if ts.len() == 0 {
                Err(ConfigError::EmptyFilter)
            } else if exists|i: int|
                0 <= i < ts.len() && ((#[trigger] ts[i]).key.len() == 0 || ts[i].value.len()
                    == 0) {
                Err(ConfigError::BlankFilterField)
            } else {
                Ok(ts)
            }
        },
    }
}

proof fn lemma_skip_ws_bounds(s: Seq<char>, i: int)
    requires
        0 <= i <= s.len(),
    ensures
        i <= skip_ws(s, i) <= s.len(),
    decreases s.len() - i,
{
    if i < s.len() && is_ws(s[i]) {
        lemma_skip_ws_bounds(s, i + 1);
    }
}

proof fn lemma_string_body_bounds(s: Seq<char>, i: int)
    requires
        0 <= i,
    ensures
        parse_string_body(s, i) matches Some((t, j)) ==> i < j <= s.len(),
    decreases s.len() - i,
{
    if 0 <= i < s.len() {
        if s[i] == '\\' {
            if i + 1 < s.len() {
                let e = s[i + 1];
                if simple_escape(e) is Some {
                    lemma_string_body_bounds(s, i + 2);
                } else if e == 'u' && i + 6 <= s.len() {
                    let h = hex4(s, i + 2);
                    if 0xD800 <= h < 0xDC00 {
                        if i + 12 <= s.len() {
                            lemma_string_body_bounds(s, i + 12);
                        }
                    } else if !(h < 0) && !(0xDC00 <= h < 0xE000) {
                        lemma_string_body_bounds(s, i + 6);
                    }
                }
            }
        } else {
            lemma_string_body_bounds(s, i + 1);
        }
    }
}

proof fn lemma_json_string_bounds(s: Seq<char>, i: int)
    requires
        0 <= i,
    ensures
        parse_json_string(s, i) matches Some((t, j)) ==> i < j <= s.len(),
{
    if 0 <= i < s.len() && s[i] == '"' {
        lemma_string_body_bounds(s, i + 1);
    }
}

proof fn lemma_member_bounds(s: Seq<char>, i: int)
    requires
        0 <= i,
    ensures
        parse_member(s, i) matches Some((nv, j)) ==> i < j <= s.len(),
{
    lemma_json_string_bounds(s, i);
    match parse_json_string(s, i) {
        None => {},
        Some((name, j)) => {
            lemma_skip_ws_bounds(s, j);
            let k = skip_ws(s, j);
            if k < s.len() && s[k] == ':' {
                lemma_skip_ws_bounds(s, k + 1);
                lemma_json_string_bounds(s, skip_ws(s, k + 1));
            }
        },
    }
}

proof fn lemma_object_bounds(s: Seq<char>, i: int)
    requires
        0 <= i,
    ensures
        parse_object(s, i) matches Some((t, j)) ==> i < j <= s.len(),
{
    if 0 <= i < s.len() && s[i] == '{' {
        lemma_skip_ws_bounds(s, i + 1);
        let j = skip_ws(s, i + 1);
        lemma_member_bounds(s, j);
        match parse_member(s, j) {
            None => {},
            Some((nv1, k)) => {
                lemma_skip_ws_bounds(s, k);
                let l = skip_ws(s, k);
                if l < s.len() && s[l] == ',' {
                    lemma_skip_ws_bounds(s, l + 1);
                    let m = skip_ws(s, l + 1);
                    lemma_member_bounds(s, m);
                    match parse_member(s, m) {
                        None => {},
                        Some((nv2, p)) => {
                            lemma_skip_ws_bounds(s, p);
                        },
                    }
                }
            },
        }
    }
}

proof fn lemma_more_elements_bounds(s: Seq<char>, i: int)
    requires
        0 <= i,
    ensures
        parse_more_elements(s, i) matches Some((ts, p)) ==> p <= s.len(),
    decreases s.len() - i,
{
    if i <= s.len() {
        lemma_skip_ws_bounds(s, i);
    }
    let j = skip_ws(s, i);
    if j < s.len() && s[j] == ']' {
    } else if j < s.len() && s[j] == ',' {
        let k = skip_ws(s, j + 1);
        match parse_object(s, k) {
            None => {},
            Some((t, m)) => {
                if i < m <= s.len() {
                    lemma_more_elements_bounds(s, m);
                }
            },
        }
    }
}

proof fn lemma_array_bounds(s: Seq<char>, i: int)
    requires
        0 <= i,
    ensures
        parse_array(s, i) matches Some((ts, p)) ==> p <= s.len(),
{
    if 0 <= i < s.len() && s[i] == '[' {
        lemma_skip_ws_bounds(s, i + 1);
        let j = skip_ws(s, i + 1);
        match parse_object(s, j) {
            None => {},
            Some((t, k)) => {
                if i < k <= s.len() {
                    lemma_more_elements_bounds(s, k);
                }
            },
        }
    }
}

/// The view of an exec string-parse result.
pub open spec fn str_result_view(r: Option<(String, usize)>) -> Option<(Seq<char>, int)> {
    match r {
        None => None,
        Some((t, j)) => Some((t@, j as int)),
    }
}

/// The view of an exec member-parse result.
pub open spec fn member_result_view(r: Option<((String, String), usize)>) -> Option<
    ((Seq<char>, Seq<char>), int),
> {
    match r {
        None => None,
        Some(((n, v), j)) => Some(((n@, v@), j as int)),
    }
}

/// The view of an exec object-parse result.
pub open spec fn object_result_view(r: Option<(TagFilter, usize)>) -> Option<
    (TagFilterView, int),
> {
    match r {
        None => None,
        Some((t, j)) => Some((t@, j as int)),
    }
}

/// The view of an exec array-parse result.
pub open spec fn array_result_view(r: Option<(Vec<TagFilter>, usize)>) -> Option<
    (Seq<TagFilterView>, int),
> {
    match r {
        None => None,
        Some((ts, j)) => Some((ts.deep_view(), j as int)),
    }
}

/// The view of the exec filter-resolution result.
pub open spec fn filters_result_view(r: Result<Vec<TagFilter>, ConfigError>) -> Result<
    Seq<TagFilterView>,
    ConfigError,
> {
    match r {
        Ok(v) => Ok(v.deep_view()),
        Err(e) => Err(e),
    }
}

fn skip_ws_exec(s: &str, i: usize) -> (r: usize)
    requires
        i <= s@.len(),
    ensures
        r as int == skip_ws(s@, i as int),
        i <= r <= s@.len(),
{
    let n = s.unicode_len();
    let mut j = i;
    while j < n
        invariant
            n == s@.len(),
            i <= j <= n,
            skip_ws(s@, i as int) == skip_ws(s@, j as int),
        decreases n - j,
    {
        let c = s.get_char(j);
        if !(c == ' ' || c == '\t' || c == '\n' || c == '\r') {
            return j;
        }
        j += 1;
    }
    j
}

fn hex_val_exec(c: char) -> (r: i32)
    ensures
        r as int == hex_val(c),
        -1 <= r < 16,
{
    if '0' <= c && c <= '9' {
        (c as u32 - '0' as u32) as i32
    } else if 'a' <= c && c <= 'f' {
        10 + (c as u32 - 'a' as u32) as i32
    } else if 'A' <= c && c <= 'F' {
        10 + (c as u32 - 'A' as u32) as i32
    } else {
        -1
    }
}

fn hex4_exec(s: &str, i: usize) -> (r: i32)
    requires
        i + 4 <= s@.len(),
        s@.len() <= usize::MAX,
    ensures
        r as int == hex4(s@, i as int),
        -1 <= r < 0x10000,
{
    let h0 = hex_val_exec(s.get_char(i));
    let h1 = hex_val_exec(s.get_char(i + 1));
    let h2 = hex_val_exec(s.get_char(i + 2));
    let h3 = hex_val_exec(s.get_char(i + 3));
    if h0 < 0 || h1 < 0 || h2 < 0 || h3 < 0 {
        return -1;
    }
    4096 * h0 + 256 * h1 + 16 * h2 + h3
}

fn simple_escape_exec(e: char) -> (r: Option<char>)
    ensures
        r == simple_escape(e),
{
    if e == '"' { Some('"') }
    else if e == '\\' { Some('\\') }
    else if e == '/' { Some('/') }
    else if e == 'b' { Some('\u{8}') }
    else if e == 'f' { Some('\u{c}') }
    else if e == 'n' { Some('\n') }
    else if e == 'r' { Some('\r') }
    else if e == 't' { Some('\t') }
    else { None }
}

/// Prepend one character to a string.
fn prepend_char(c: char, rest: String) -> (r: String)
    ensures
        r@ == seq![c] + rest@,
{
    let mut head = String::new();
    push_char(&mut head, c);
    let out = head.concat(rest.as_str());
    proof {
        assert(out@ =~= seq![c] + rest@);
    }
    out
}

#[verifier::rlimit(100)]
fn parse_string_body_exec(s: &str, i: usize) -> (r: Option<(String, usize)>)
    requires
        i <= s@.len(),
    ensures
        str_result_view(r) == parse_string_body(s@, i as int),
    decreases s@.len() - i,
{
    let n = s.unicode_len();
    if i >= n {
        return None;
    }
    let c = s.get_char(i);
    if c == '"' {
        Some((String::new(), i + 1))
    } else if c == '\\' {
        if n - i < 2 {
            return None;
        }
        let e = s.get_char(i + 1);
        match simple_escape_exec(e) {
            Some(ch) => {
                match parse_string_body_exec(s, i + 2) {
                    None => None,
                    Some((rest, j)) => Some((prepend_char(ch, rest), j)),
                }
            },
            None => {
                if e == 'u' {
                    if n - i < 6 {
                        return None;
                    }
                    let h = hex4_exec(s, i + 2);
                    if h < 0 {
                        return None;
                    }
                    if h >= 0xD800 && h < 0xDC00 {
                        if n - i < 12 {
                            return None;
                        }
                        let c6 = s.get_char(i + 6);
                        let c7 = s.get_char(i + 7);
                        if c6 == '\\' && c7 == 'u' {
                            let l = hex4_exec(s, i + 8);
                            if l >= 0xDC00 && l < 0xE000 {
                                let cp: u32 = 0x10000 + (h as u32 - 0xD800) * 0x400 + (l as u32
                                    - 0xDC00);
                                match char_from_u32(cp) {
                                    Some(ch) => {
                                        proof {
                                            assert(cp as int == 0x10000 + (hex4(s@, i as int + 2)
                                                - 0xD800) * 0x400 + (hex4(s@, i as int + 8)
                                                - 0xDC00));
                                            assert(ch == ((0x10000 + (hex4(s@, i as int + 2)
                                                - 0xD800) * 0x400 + (hex4(s@, i as int + 8)
                                                - 0xDC00)) as char));
                                        }
                                        match parse_string_body_exec(s, i + 12) {
                                            None => None,
                                            Some((rest, j)) => Some((prepend_char(ch, rest), j)),
                                        }
                                    },
                                    None => {
                                        proof {
                                            assert(false);
                                        }
                                        None
                                    },
                                }
                            } else {
                                None
                            }
                        } else {
                            None
                        }
                    } else if h >= 0xDC00 && h < 0xE000 {
                        None
                    } else {
                        match char_from_u32(h as u32) {
                            Some(ch) => {
                                proof {
                                    assert(h as int == hex4(s@, i as int + 2));
                                    assert(ch == (hex4(s@, i as int + 2) as char));
                                }
                                match parse_string_body_exec(s, i + 6) {
                                    None => None,
                                    Some((rest, j)) => Some((prepend_char(ch, rest), j)),
                                }
                            },
                            None => {
                                proof {
                                    assert(false);
                                }
                                None
                            },
                        }
                    }
                } else {
                    None
                }
            },
        }
    } else if (c as u32) < 0x20 {
        None
    } else {
        match parse_string_body_exec(s, i + 1) {
            None => None,
            Some((rest, j)) => Some((prepend_char(c, rest), j)),
        }
    }
}

fn parse_json_string_exec(s: &str, i: usize) -> (r: Option<(String, usize)>)
    requires
        i <= s@.len(),
    ensures
        str_result_view(r) == parse_json_string(s@, i as int),
{
    let n = s.unicode_len();
    if i < n {
        let c = s.get_char(i);
        if c == '"' {
            return parse_string_body_exec(s, i + 1);
        }
    }
    None
}

fn parse_member_exec(s: &str, i: usize) -> (r: Option<((String, String), usize)>)
    requires
        i <= s@.len(),
    ensures
        member_result_view(r) == parse_member(s@, i as int),
{
    let n = s.unicode_len();
    match parse_json_string_exec(s, i) {
        None => None,
        Some((name, j)) => {
            proof {
                lemma_json_string_bounds(s@, i as int);
            }
            let k = skip_ws_exec(s, j);
            if k < n {
                let c = s.get_char(k);
                if c == ':' {
                    let l = skip_ws_exec(s, k + 1);
                    return match parse_json_string_exec(s, l) {
                        None => None,
                        Some((value, m)) => Some(((name, value), m)),
                    };
                }
            }
            None
        },
    }
}

fn parse_object_exec(s: &str, i: usize) -> (r: Option<(TagFilter, usize)>)
    requires
        i <= s@.len(),
    ensures
        object_result_view(r) == parse_object(s@, i as int),
{
    let n = s.unicode_len();
    if i >= n {
        return None;
    }
    if s.get_char(i) != '{' {
        return None;
    }
    let j = skip_ws_exec(s, i + 1);
    match parse_member_exec(s, j) {
        None => None,
        Some(((n1, v1), k)) => {
            proof {
                lemma_member_bounds(s@, j as int);
            }
            let l = skip_ws_exec(s, k);
            if l >= n {
                return None;
            }
            if s.get_char(l) != ',' {
                return None;
            }
            let m = skip_ws_exec(s, l + 1);
            match parse_member_exec(s, m) {
                None => None,
                Some(((n2, v2), p)) => {
                    proof {
                        lemma_member_bounds(s@, m as int);
                    }
                    let q = skip_ws_exec(s, p);
                    if q >= n {
                        return None;
                    }
                    if s.get_char(q) != '}' {
                        return None;
                    }
                    let key_name = String::from_str("key");
                    let value_name = String::from_str("value");
                    if n1 == key_name && n2 == value_name {
                        Some((TagFilter { key: v1, value: v2 }, q + 1))
                    } else if n1 == value_name && n2 == key_name {
                        Some((TagFilter { key: v2, value: v1 }, q + 1))
                    } else {
                        None
                    }
                },
            }
        },
    }
}

fn parse_more_elements_exec(s: &str, i: usize) -> (r: Option<(Vec<TagFilter>, usize)>)
    requires
        i <= s@.len(),
    ensures
        array_result_view(r) == parse_more_elements(s@, i as int),
    decreases s@.len() - i,
{
    let n = s.unicode_len();
    let j = skip_ws_exec(s, i);
    if j < n {
        let c = s.get_char(j);
        if c == ']' {
            let empty: Vec<TagFilter> = Vec::new();
            proof {
                assert(empty.deep_view() =~= Seq::<TagFilterView>::empty());
            }
            return Some((empty, j + 1));
        }
        if c == ',' {
            let k = skip_ws_exec(s, j + 1);
            return match parse_object_exec(s, k) {
                None => None,
                Some((t, m)) => {
                    proof {
                        lemma_object_bounds(s@, k as int);
                    }
                    match parse_more_elements_exec(s, m) {
                        None => None,
                        Some((rest, p)) => {
                            let mut out = rest;
                            let ghost old_view = out.deep_view();
                            out.insert(0, t);
                            proof {
                                assert(out.deep_view() =~= seq![t@] + old_view);
                            }
                            Some((out, p))
                        },
                    }
                },
            };
        }
    }
    None
}

fn parse_array_exec(s: &str, i: usize) -> (r: Option<(Vec<TagFilter>, usize)>)
    requires
        i <= s@.len(),
    ensures
        array_result_view(r) == parse_array(s@, i as int),
{
    let n = s.unicode_len();
    if i >= n {
        return None;
    }
    if s.get_char(i) != '[' {
        return None;
    }
    let j = skip_ws_exec(s, i + 1);
    if j < n {
        let c = s.get_char(j);
        if c == ']' {
            let empty: Vec<TagFilter> = Vec::new();
            proof {
                assert(empty.deep_view() =~= Seq::<TagFilterView>::empty());
            }
            return Some((empty, j + 1));
        }
    }
    match parse_object_exec(s, j) {
        None => None,
        Some((t, k)) => {
            proof {
                lemma_object_bounds(s@, j as int);
            }
            match parse_more_elements_exec(s, k) {
                None => None,
                Some((rest, p)) => {
                    let mut out = rest;
                    let ghost old_view = out.deep_view();
                    out.insert(0, t);
                    proof {
                        assert(out.deep_view() =~= seq![t@] + old_view);
                    }
                    Some((out, p))
                },
            }
        },
    }
}

/// Parse and validate the tag filter handed in as a JSON array of
/// `key`/`value` objects.
#[verifier::rlimit(100)]
pub fn parse_tag_filters(s: &str) -> (r: Result<Vec<TagFilter>, ConfigError>)
    ensures
        filters_result_view(r) == filter_of_json(s@),
{
    let n = s.unicode_len();
    let i = skip_ws_exec(s, 0);
    match parse_array_exec(s, i) {
        None => Err(ConfigError::MalformedFilter),
        Some((ts, j)) => {
            proof {
                lemma_array_bounds(s@, i as int);
            }
            let k = skip_ws_exec(s, j);
            if k != n {
                return Err(ConfigError::MalformedFilter);
            }
            if ts.len() == 0 {
                return Err(ConfigError::EmptyFilter);
            }
            let mut q: usize = 0;
            while q < ts.len()
                invariant
                    q <= ts@.len(),
                    parse_filters_spec(s@) == Some(ts.deep_view()),
                    ts@.len() > 0,
                    forall|w: int|
                        0 <= w < q ==> !((#[trigger] ts.deep_view()[w]).key.len() == 0
                            || ts.deep_view()[w].value.len() == 0),
                decreases ts@.len() - q,
            {
                proof {
                    assert(ts.deep_view()[q as int] == ts@[q as int]@);
                }
                if ts[q].key.as_str().unicode_len() == 0 || ts[q].value.as_str().unicode_len()
                    == 0 {
                    proof {
                        let ts_spec = parse_filters_spec(s@)->Some_0;
                        assert(ts_spec == ts.deep_view());
                        assert(0 <= q < ts_spec.len() && ((#[trigger] ts_spec[q as int]).key.len()
                            == 0 || ts_spec[q as int].value.len() == 0));
                    }
                    return Err(ConfigError::BlankFilterField);
                }
                q += 1;
            }
            proof {
                let ts_spec = parse_filters_spec(s@)->Some_0;
                assert(ts_spec == ts.deep_view());
                assert(forall|w: int|
                    0 <= w < ts_spec.len() ==> !((#[trigger] ts_spec[w]).key.len() == 0
                        || ts_spec[w].value.len() == 0));
            }
            Ok(ts)
        },
    }
}

/// The resolved run parameters: region, role, and the optional tag filter.
#[derive(Clone, Debug, PartialEq, Eq)]
pub struct Config {
    pub region: String,
    pub role: String,
    pub filter: Option<Vec<TagFilter>>,
}

/// Resolve raw invocation input into a run configuration, or fail before any
/// network call: the region must be one the provider knows, the role must be
/// non-empty, and the tag filter, when given, must parse.
pub fn resolve_config(region: &str, role: &str, tags_json: Option<&str>) -> (r: Result<
    Config,
    ConfigError,
>)
    ensures
        !region_known_of(region@) ==> r == Err::<Config, ConfigError>(ConfigError::UnknownRegion),
        region_known_of(region@) && role@.len() == 0 ==> r == Err::<Config, ConfigError>(
            ConfigError::EmptyRole,
        ),
        (region_known_of(region@) && role@.len() > 0) ==> (match tags_json {
            None => r matches Ok(c) && c.region@ == region@ && c.role@ == role@ && c.filter
                is None,
            Some(t) => (match filter_of_json(t@) {
                Ok(f) => r matches Ok(c) && c.region@ == region@ && c.role@ == role@ && (
                c.filter matches Some(v) && v.deep_view() == f),
                Err(e) => r == Err::<Config, ConfigError>(e),
            }),
        }),
{
    if !region_is_known(region) {
        return Err(ConfigError::UnknownRegion);
    }
    if role.unicode_len() == 0 {
        return Err(ConfigError::EmptyRole);
    }
    match tags_json {
        None => Ok(
            Config {
                region: String::from_str(region),
                role: String::from_str(role),
                filter: None,
            },
        ),
        Some(t) => match parse_tag_filters(t) {
            Ok(v) => Ok(
                Config {
                    region: String::from_str(region),
                    role: String::from_str(role),
                    filter: Some(v),
                },
            ),
            Err(e) => Err(e),
        },
    }
}

} // verus!

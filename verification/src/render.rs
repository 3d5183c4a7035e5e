//! Output assembly: the discovery document rendered as pretty-printed JSON,
//! with the literal field names the monitoring system matches on.

use vstd::prelude::*;
use vstd::string::StrSliceExecFns;
use vstd::string::StringExecFns;

use crate::model::DiscoveryData;
use crate::model::DiscoveryEntry;
use crate::model::DiscoveryEntryView;
use crate::strutil::push_char;

verus! {

/// The lowercase hexadecimal digit of a value below sixteen.
pub open spec fn hex_digit(n: int) -> char
    recommends
        0 <= n < 16,
{
    if n == 0 { '0' }
    else if n == 1 { '1' }
    else if n == 2 { '2' }
    else if n == 3 { '3' }
    else if n == 4 { '4' }
    else if n == 5 { '5' }
    else if n == 6 { '6' }
    else if n == 7 { '7' }
    else if n == 8 { '8' }
    else if n == 9 { '9' }
    else if n == 10 { 'a' }
    else if n == 11 { 'b' }
    else if n == 12 { 'c' }
    else if n == 13 { 'd' }
    else if n == 14 { 'e' }
    else { 'f' }
}

/// How one character appears inside a JSON string: quote and backslash are
/// escaped, control characters take their short escape or a `\u00..` form,
/// and every other character stands as itself.
pub open spec fn escape_char(c: char) -> Seq<char> {
    if c == '"' { "\\\""@ }
    else if c == '\\' { "\\\\"@ }
    else if c == '\u{8}' { "\\b"@ }
    else if c == '\t' { "\\t"@ }
    else if c == '\n' { "\\n"@ }
    else if c == '\u{c}' { "\\f"@ }
    else if c == '\r' { "\\r"@ }
    else if (c as u32) < 0x20 {
        "\\u00"@ + seq![hex_digit((c as u32 / 16) as int), hex_digit((c as u32 % 16) as int)]
    } else {
        seq![c]
    }
}

/// A whole character sequence escaped for JSON.
pub open spec fn escape_seq(s: Seq<char>) -> Seq<char>
    decreases s.len(),
{
    if s.len() == 0 {
        Seq::empty()
    } else {
        escape_char(s[0]) + escape_seq(s.drop_first())
    }
}

/// A JSON string literal: the escaped content between double quotes.
pub open spec fn json_string(s: Seq<char>) -> Seq<char> {
    "\""@ + escape_seq(s) + "\""@
}

/// The decimal digit of a value below ten.
pub open spec fn dec_digit(n: int) -> char
    recommends
        0 <= n < 10,
{
    if n == 0 { '0' }
    else if n == 1 { '1' }
    else if n == 2 { '2' }
    else if n == 3 { '3' }
    else if n == 4 { '4' }
    else if n == 5 { '5' }
    else if n == 6 { '6' }
    else if n == 7 { '7' }
    else if n == 8 { '8' }
    else { '9' }
}

/// The decimal digits of a natural number, most significant first.
pub open spec fn dec_nat(n: nat) -> Seq<char>
    decreases n,
{
    if n < 10 {
        seq![dec_digit(n as int)]
    } else {
        dec_nat(n / 10) + seq![dec_digit((n % 10) as int)]
    }
}

/// A signed port number in decimal, as JSON writes integers.
pub open spec fn dec_i64(n: i64) -> Seq<char> {
    if n < 0 {
        "-"@ + dec_nat((-(n as int)) as nat)
    } else {
        dec_nat(n as nat)
    }
}

/// One record at the document's nesting depth. The field names `{#DB}`,
/// `{#DB_ENDPOINT}` and `{#DB_PORT}` are the external contract: the consumer
/// matches on these exact keys.
pub open spec fn render_entry_spec(e: DiscoveryEntryView) -> Seq<char> {
    "    {\n      \"{#DB}\": "@ + json_string(e.db_instance_identifier)
        + ",\n      \"{#DB_ENDPOINT}\": "@ + json_string(e.address) + ",\n      \"{#DB_PORT}\": "@
        + dec_i64(e.port) + "\n    }"@
}

/// The records after the first, each preceded by the separator.
pub open spec fn render_rest_spec(es: Seq<DiscoveryEntryView>) -> Seq<char>
    decreases es.len(),
{
    if es.len() == 0 {
        Seq::empty()
    } else {
        ",\n"@ + render_entry_spec(es[0]) + render_rest_spec(es.drop_first())
    }
}

/// All records joined by the separator.
pub open spec fn render_entries_spec(es: Seq<DiscoveryEntryView>) -> Seq<char> {
    if es.len() == 0 {
        Seq::empty()
    } else {
        render_entry_spec(es[0]) + render_rest_spec(es.drop_first())
    }
}

/// The whole discovery document, exactly as it is printed.
pub open spec fn render_doc_spec(es: Seq<DiscoveryEntryView>) -> Seq<char> {
    if es.len() == 0 {
        "{\n  \"data\": []\n}"@
    } else {
        "{\n  \"data\": [\n"@ + render_entries_spec(es) + "\n  ]\n}"@
    }
}

/// Escaping distributes over concatenation.
proof fn lemma_escape_append(a: Seq<char>, b: Seq<char>)
    ensures
        escape_seq(a + b) == escape_seq(a) + escape_seq(b),
    decreases a.len(),
{
    if a.len() == 0 {
        assert(a + b =~= b);
        assert(escape_seq(a) + escape_seq(b) =~= escape_seq(b));
    } else {
        lemma_escape_append(a.drop_first(), b);
        assert((a + b)[0] == a[0]);
        assert((a + b).drop_first() =~= a.drop_first() + b);
        assert((a + b).len() > 0);
        assert(escape_char(a[0]) + (escape_seq(a.drop_first()) + escape_seq(b)) =~= (escape_char(
            a[0],
        ) + escape_seq(a.drop_first())) + escape_seq(b));
    }
}

/// Escaping one more character extends the escaped prefix.
proof fn lemma_escape_snoc(s: Seq<char>, i: int)
    requires
        0 <= i < s.len(),
    ensures
        escape_seq(s.take(i + 1)) == escape_seq(s.take(i)) + escape_char(s[i]),
{
    assert(s.take(i + 1) =~= s.take(i) + seq![s[i]]);
    lemma_escape_append(s.take(i), seq![s[i]]);
    assert(seq![s[i]].drop_first() =~= Seq::<char>::empty());
    assert(escape_seq(seq![s[i]]) == escape_char(s[i]) + escape_seq(Seq::<char>::empty()));
    assert(escape_char(s[i]) + Seq::<char>::empty() =~= escape_char(s[i]));
}

fn hex_digit_exec(n: u32) -> (c: char)
    requires
        n < 16,
    ensures
        c == hex_digit(n as int),
{
    match n {
        0 => '0',
        1 => '1',
        2 => '2',
        3 => '3',
        4 => '4',
        5 => '5',
        6 => '6',
        7 => '7',
        8 => '8',
        9 => '9',
        10 => 'a',
        11 => 'b',
        12 => 'c',
        13 => 'd',
        14 => 'e',
        _ => 'f',
    }
}

fn dec_digit_exec(n: u64) -> (c: char)
    requires
        n < 10,
    ensures
        c == dec_digit(n as int),
{
    match n {
        0 => '0',
        1 => '1',
        2 => '2',
        3 => '3',
        4 => '4',
        5 => '5',
        6 => '6',
        7 => '7',
        8 => '8',
        _ => '9',
    }
}

/// Append the JSON escaping of `s`.
fn append_escaped(out: &mut String, s: &String)
    ensures
        final(out)@ == old(out)@ + escape_seq(s@),
{
    let n = s.as_str().unicode_len();
    let mut i: usize = 0;
    proof {
        assert(s@.take(0) =~= Seq::<char>::empty());
        assert(old(out)@ + escape_seq(s@.take(0)) =~= old(out)@);
    }
    while i < n
        invariant
            n == s@.len(),
            i <= n,
            out@ == old(out)@ + escape_seq(s@.take(i as int)),
        decreases n - i,
    {
        let c = s.as_str().get_char(i);
        let ghost prev = out@;
        if c == '"' {
            out.append("\\\"");
        } else if c == '\\' {
            out.append("\\\\");
        } else if c == '\u{8}' {
            out.append("\\b");
        } else if c == '\t' {
            out.append("\\t");
        } else if c == '\n' {
            out.append("\\n");
        } else if c == '\u{c}' {
            out.append("\\f");
        } else if c == '\r' {
            out.append("\\r");
        } else if (c as u32) < 0x20 {
            out.append("\\u00");
            let code = c as u32;
            push_char(out, hex_digit_exec(code / 16));
            push_char(out, hex_digit_exec(code % 16));
            proof {
                assert(out@ =~= prev + escape_char(c));
            }
        } else {
            push_char(out, c);
            proof {
                assert(out@ =~= prev + seq![c]);
            }
        }
        proof {
            lemma_escape_snoc(s@, i as int);
            assert(out@ =~= prev + escape_char(c));
            assert(out@ =~= old(out)@ + escape_seq(s@.take(i as int + 1)));
        }
        i += 1;
    }
    proof {
        assert(s@.take(n as int) =~= s@);
    }
}

/// Append `s` as a JSON string literal.
fn append_json_string(out: &mut String, s: &String)
    ensures
        final(out)@ == old(out)@ + json_string(s@),
{
    out.append("\"");
    append_escaped(out, s);
    out.append("\"");
    proof {
        assert(out@ =~= old(out)@ + json_string(s@));
    }
}

/// Append the decimal digits of `m`, most significant first.
fn append_u64_digits(out: &mut String, m: u64)
    ensures
        final(out)@ == old(out)@ + dec_nat(m as nat),
    decreases m,
{
    if m < 10 {
        push_char(out, dec_digit_exec(m));
        proof {
            assert(out@ =~= old(out)@ + dec_nat(m as nat));
        }
    } else {
        append_u64_digits(out, m / 10);
        push_char(out, dec_digit_exec(m % 10));
        proof {
            assert(out@ =~= old(out)@ + dec_nat(m as nat));
        }
    }
}

/// Append the port number in decimal.
fn append_i64(out: &mut String, n: i64)
    ensures
        final(out)@ == old(out)@ + dec_i64(n),
{
    if n < 0 {
        out.append("-");
        let m: u64 = (-(n as i128)) as u64;
        proof {
            assert(m as nat == (-(n as int)) as nat);
        }
        append_u64_digits(out, m);
        proof {
            assert(out@ =~= old(out)@ + dec_i64(n));
        }
    } else {
        append_u64_digits(out, n as u64);
    }
}

/// Append one rendered record.
fn append_entry(out: &mut String, e: &DiscoveryEntry)
    ensures
        final(out)@ == old(out)@ + render_entry_spec(e@),
{
    out.append("    {\n      \"{#DB}\": ");
    append_json_string(out, &e.db_instance_identifier);
    out.append(",\n      \"{#DB_ENDPOINT}\": ");
    append_json_string(out, &e.address);
    out.append(",\n      \"{#DB_PORT}\": ");
    append_i64(out, e.port);
    out.append("\n    }");
    proof {
        assert(out@ =~= old(out)@ + render_entry_spec(e@));
    }
}

/// One more record extends the joined tail.
proof fn lemma_rest_snoc(es: Seq<DiscoveryEntryView>, i: int)
    requires
        0 <= i < es.len(),
    ensures
        render_rest_spec(es.take(i + 1)) == render_rest_spec(es.take(i)) + ",\n"@
            + render_entry_spec(es[i]),
    decreases i,
{
    if i == 0 {
        assert(es.take(1)[0] == es[0]);
        assert(es.take(1).drop_first() =~= Seq::<DiscoveryEntryView>::empty());
        assert(render_rest_spec(Seq::<DiscoveryEntryView>::empty()) == Seq::<char>::empty());
        assert(es.take(0) =~= Seq::<DiscoveryEntryView>::empty());
        assert((",\n"@ + render_entry_spec(es[0])) + Seq::<char>::empty() =~= (Seq::<char>::empty()
            + ",\n"@) + render_entry_spec(es[0]));
    } else {
        lemma_rest_snoc(es.drop_first(), i - 1);
        assert(es.take(i + 1)[0] == es[0]);
        assert(es.take(i + 1).drop_first() =~= es.drop_first().take(i));
        assert(es.take(i)[0] == es[0]);
        assert(es.take(i).drop_first() =~= es.drop_first().take(i - 1));
        assert(es.drop_first()[i - 1] == es[i]);
        assert((",\n"@ + render_entry_spec(es[0])) + ((render_rest_spec(
            es.drop_first().take(i - 1),
        ) + ",\n"@) + render_entry_spec(es[i])) =~= (((",\n"@ + render_entry_spec(es[0]))
            + render_rest_spec(es.drop_first().take(i - 1))) + ",\n"@) + render_entry_spec(es[i]));
    }
}

/// One more record extends the joined records.
proof fn lemma_entries_snoc(es: Seq<DiscoveryEntryView>, i: int)
    requires
        1 <= i < es.len(),
    ensures
        render_entries_spec(es.take(i + 1)) == render_entries_spec(es.take(i)) + ",\n"@
            + render_entry_spec(es[i]),
{
    lemma_rest_snoc(es.drop_first(), i - 1);
    assert(es.take(i + 1)[0] == es[0]);
    assert(es.take(i + 1).drop_first() =~= es.drop_first().take(i));
    assert(es.take(i)[0] == es[0]);
    assert(es.take(i).drop_first() =~= es.drop_first().take(i - 1));
    assert(es.drop_first()[i - 1] == es[i]);
    assert(render_entry_spec(es[0]) + ((render_rest_spec(es.drop_first().take(i - 1)) + ",\n"@)
        + render_entry_spec(es[i])) =~= ((render_entry_spec(es[0]) + render_rest_spec(
        es.drop_first().take(i - 1),
    )) + ",\n"@) + render_entry_spec(es[i]));
}

/// A sequence contains another as one contiguous run.
pub open spec fn contains_seq(hay: Seq<char>, needle: Seq<char>) -> bool {
    exists|p: int|
        0 <= p && p + needle.len() <= hay.len() && #[trigger] hay.subrange(p, p + needle.len())
            == needle
}

/// The literal field names stand in every rendered record, byte-exact: the
/// consumer matches on these keys.
pub proof fn lemma_entry_field_keys(e: DiscoveryEntryView)
    ensures
        contains_seq(render_entry_spec(e), "\"{#DB}\""@),
        contains_seq(render_entry_spec(e), "\"{#DB_ENDPOINT}\""@),
        contains_seq(render_entry_spec(e), "\"{#DB_PORT}\""@),
{
    reveal_strlit("    {\n      \"{#DB}\": ");
    reveal_strlit(",\n      \"{#DB_ENDPOINT}\": ");
    reveal_strlit(",\n      \"{#DB_PORT}\": ");
    reveal_strlit("\"{#DB}\"");
    reveal_strlit("\"{#DB_ENDPOINT}\"");
    reveal_strlit("\"{#DB_PORT}\"");
    let r = render_entry_spec(e);
    let j1 = json_string(e.db_instance_identifier);
    let j2 = json_string(e.address);
    let k1 = "\"{#DB}\""@;
    let k2 = "\"{#DB_ENDPOINT}\""@;
    let k3 = "\"{#DB_PORT}\""@;
    assert(r.subrange(12, 12 + k1.len() as int) =~= k1);
    assert(contains_seq(r, k1));
    let p2 = 21 + j1.len() as int + 8;
    assert(r.subrange(p2, p2 + k2.len() as int) =~= k2);
    assert(contains_seq(r, k2));
    let p3 = 21 + j1.len() as int + 26 + j2.len() as int + 8;
    assert(r.subrange(p3, p3 + k3.len() as int) =~= k3);
    assert(contains_seq(r, k3));
}

/// Render the discovery document exactly as the consumer expects it: the
/// single `data` field holding the selected records in order.
pub fn render_document(doc: &DiscoveryData) -> (r: String)
    ensures
        r@ == render_doc_spec(doc@),
{
    let ghost es = doc@;
    let mut out = String::new();
    if doc.data.len() == 0 {
        out.append("{\n  \"data\": []\n}");
        proof {
            assert(out@ =~= render_doc_spec(es));
        }
        return out;
    }
    out.append("{\n  \"data\": [\n");
    let mut i: usize = 0;
    proof {
        assert(es.take(0) =~= Seq::<DiscoveryEntryView>::empty());
        assert(out@ =~= "{\n  \"data\": [\n"@ + render_entries_spec(es.take(0)));
    }
    while i < doc.data.len()
        invariant
            es == doc@,
            doc.data@.len() == es.len(),
            0 < es.len(),
            i <= es.len(),
            out@ == "{\n  \"data\": [\n"@ + render_entries_spec(es.take(i as int)),
        decreases es.len() - i,
    {
        let ghost prev = out@;
        if i > 0 {
            out.append(",\n");
        }
        append_entry(&mut out, &doc.data[i]);
        proof {
            assert(doc.data.deep_view()[i as int] == doc.data@[i as int]@);
            if i == 0 {
                assert(es.take(1)[0] == es[0]);
                assert(es.take(1).drop_first() =~= Seq::<DiscoveryEntryView>::empty());
                assert(render_rest_spec(Seq::<DiscoveryEntryView>::empty())
                    == Seq::<char>::empty());
                assert(out@ =~= "{\n  \"data\": [\n"@ + render_entries_spec(es.take(1)));
            } else {
                lemma_entries_snoc(es, i as int);
                assert(out@ =~= "{\n  \"data\": [\n"@ + render_entries_spec(es.take(i as int + 1)));
            }
        }
        i += 1;
    }
    out.append("\n  ]\n}");
    proof {
        assert(es.take(es.len() as int) =~= es);
        assert(out@ =~= render_doc_spec(es));
    }
    out
}

} // verus!

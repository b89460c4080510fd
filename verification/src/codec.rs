//! The document codec: a pretty-printed textual form of a document, and the
//! parser that reads it back. The exact text of an encoding and the exact
//! language the parser accepts are both stated as spec functions.

use vstd::prelude::*;

use crate::model::{DatabaseEntry, DatabaseFile, EntryView, OptView, OptimizationSettings};
use crate::text::{char_from_code, char_vec_to_string, is_unicode_scalar, str_to_char_vec};

verus! {

/// The lower-case hexadecimal digit for a value below sixteen.
pub open spec fn hex_digit(n: int) -> char {
    if n == 0 {
        '0'
    } else if n == 1 {
        '1'
    } else if n == 2 {
        '2'
    } else if n == 3 {
        '3'
    } else if n == 4 {
        '4'
    } else if n == 5 {
        '5'
    } else if n == 6 {
        '6'
    } else if n == 7 {
        '7'
    } else if n == 8 {
        '8'
    } else if n == 9 {
        '9'
    } else if n == 10 {
        'a'
    } else if n == 11 {
        'b'
    } else if n == 12 {
        'c'
    } else if n == 13 {
        'd'
    } else if n == 14 {
        'e'
    } else {
        'f'
    }
}

/// How one character is written inside a quoted string: quote, backslash and
/// the named control characters get a two-character escape, the other
/// control characters a hexadecimal one, and everything else stands as
/// itself.
pub open spec fn esc_char(c: char) -> Seq<char> {
    if c == '"' {
        seq!['\\', '"']
    } else if c == '\\' {
        seq!['\\', '\\']
    } else if c == '\n' {
        seq!['\\', 'n']
    } else if c == '\r' {
        seq!['\\', 'r']
    } else if c == '\t' {
        seq!['\\', 't']
    } else if c == '\u{8}' {
        seq!['\\', 'b']
    } else if c == '\u{c}' {
        seq!['\\', 'f']
    } else if (c as u32) < 0x20 {
        seq!['\\', 'u', '0', '0', hex_digit(c as u32 as int / 16), hex_digit(c as u32 as int % 16)]
    } else {
        seq![c]
    }
}

/// The written form of a string's characters, escaped.
pub open spec fn esc(s: Seq<char>) -> Seq<char>
    decreases s.len(),
{
    if s.len() == 0 {
        Seq::<char>::empty()
    } else {
        esc_char(s[0]) + esc(s.drop_first())
    }
}

pub proof fn lemma_esc_push(s: Seq<char>, c: char)
    ensures
        esc(s.push(c)) == esc(s) + esc_char(c),
    decreases s.len(),
{
    if s.len() == 0 {
        let p = s.push(c);
        assert(p[0] == c);
        assert(p.drop_first() =~= Seq::<char>::empty());
        assert(esc(p.drop_first()) == Seq::<char>::empty());
        assert(esc(p) == esc_char(c) + esc(p.drop_first()));
        assert(esc(s.push(c)) =~= esc(s) + esc_char(c));
    } else {
        assert(s.push(c)[0] == s[0]);
        assert(s.push(c).drop_first() =~= s.drop_first().push(c));
        lemma_esc_push(s.drop_first(), c);
        assert(esc(s.push(c)) =~= esc(s) + esc_char(c));
    }
}

/// A string value as it is written: escaped, between quotes.
pub open spec fn quoted(s: Seq<char>) -> Seq<char> {
    "\""@ + esc(s) + "\""@
}

pub open spec fn m_name(s: Seq<char>) -> Seq<char> {
    "      \"name\": "@ + quoted(s)
}

pub open spec fn m_conn(s: Seq<char>) -> Seq<char> {
    "      \"connectionString\": "@ + quoted(s)
}

pub open spec fn m_dbtype(s: Seq<char>) -> Seq<char> {
    "      \"dbType\": "@ + quoted(s)
}

pub open spec fn m_desc(s: Seq<char>) -> Seq<char> {
    "      \"description\": "@ + quoted(s)
}

pub open spec fn m_isdef(b: bool) -> Seq<char> {
    "      \"isDefault\": "@ + (if b {
        "true"@
    } else {
        "false"@
    })
}

pub open spec fn m_atl(s: Seq<char>) -> Seq<char> {
    "        \"autoToLower\": "@ + quoted(s)
}

pub open spec fn m_eil(s: Seq<char>) -> Seq<char> {
    "        \"enableILike\": "@ + quoted(s)
}

pub open spec fn m_ids(s: Seq<char>) -> Seq<char> {
    "        \"identityStrategy\": "@ + quoted(s)
}

pub open spec fn wrap_opt_body(body: Seq<char>) -> Seq<char> {
    "{\n"@ + body + "\n      }"@
}

/// The written form of the optional settings object: its present members in
/// declaration order, or `{}` when every member is absent.
pub open spec fn enc_opt(o: OptView) -> Seq<char> {
    match (o.auto_to_lower, o.enable_i_like, o.identity_strategy) {
        (Option::None, Option::None, Option::None) => "{}"@,
        (Option::Some(a), Option::None, Option::None) => wrap_opt_body(m_atl(a)),
        (Option::None, Option::Some(e), Option::None) => wrap_opt_body(m_eil(e)),
        (Option::None, Option::None, Option::Some(i)) => wrap_opt_body(m_ids(i)),
        (Option::Some(a), Option::Some(e), Option::None) => wrap_opt_body(
            m_atl(a) + ",\n"@ + m_eil(e),
        ),
        (Option::Some(a), Option::None, Option::Some(i)) => wrap_opt_body(
            m_atl(a) + ",\n"@ + m_ids(i),
        ),
        (Option::None, Option::Some(e), Option::Some(i)) => wrap_opt_body(
            m_eil(e) + ",\n"@ + m_ids(i),
        ),
        (Option::Some(a), Option::Some(e), Option::Some(i)) => wrap_opt_body(
            m_atl(a) + ",\n"@ + m_eil(e) + ",\n"@ + m_ids(i),
        ),
    }
}

pub open spec fn m_opt(o: OptView) -> Seq<char> {
    "      \"optimizationSettings\": "@ + enc_opt(o)
}

pub open spec fn entry_required(e: EntryView) -> Seq<char> {
    "    {\n"@ + m_name(e.name) + ",\n"@ + m_conn(e.connection_string) + ",\n"@ + m_dbtype(
        e.db_type,
    )
}

pub open spec fn entry_opt_desc(e: EntryView) -> Seq<char> {
    match e.description {
        Option::Some(d) => ",\n"@ + m_desc(d),
        Option::None => Seq::<char>::empty(),
    }
}

pub open spec fn entry_opt_default(e: EntryView) -> Seq<char> {
    match e.is_default {
        Option::Some(b) => ",\n"@ + m_isdef(b),
        Option::None => Seq::<char>::empty(),
    }
}

pub open spec fn entry_opt_settings(e: EntryView) -> Seq<char> {
    match e.optimization_settings {
        Option::Some(o) => ",\n"@ + m_opt(o),
        Option::None => Seq::<char>::empty(),
    }
}

/// The written form of one entry: the three required members, then the
/// present optional ones, each on its own line.
pub open spec fn enc_entry(e: EntryView) -> Seq<char> {
    entry_required(e) + entry_opt_desc(e) + entry_opt_default(e) + entry_opt_settings(e)
        + "\n    }"@
}

/// The written forms of the entries, separated by a comma and a line break.
pub open spec fn enc_entries(s: Seq<EntryView>) -> Seq<char>
    decreases s.len(),
{
    if s.len() == 0 {
        Seq::<char>::empty()
    } else if s.len() == 1 {
        enc_entry(s[0])
    } else {
        enc_entries(s.drop_last()) + ",\n"@ + enc_entry(s.last())
    }
}

/// The exact text that encoding a document produces.
pub open spec fn encode_spec(doc: Seq<EntryView>) -> Seq<char> {
    if doc.len() == 0 {
        "{\n  \"databases\": []\n}"@
    } else {
        "{\n  \"databases\": [\n"@ + enc_entries(doc) + "\n  ]\n}"@
    }
}

fn hex_digit_char(n: u32) -> (r: char)
    requires
        n < 16,
    ensures
        r == hex_digit(n as int),
{
    if n == 0 {
        '0'
    } else if n == 1 {
        '1'
    } else if n == 2 {
        '2'
    } else if n == 3 {
        '3'
    } else if n == 4 {
        '4'
    } else if n == 5 {
        '5'
    } else if n == 6 {
        '6'
    } else if n == 7 {
        '7'
    } else if n == 8 {
        '8'
    } else if n == 9 {
        '9'
    } else if n == 10 {
        'a'
    } else if n == 11 {
        'b'
    } else if n == 12 {
        'c'
    } else if n == 13 {
        'd'
    } else if n == 14 {
        'e'
    } else {
        'f'
    }
}

fn escape_chars(v: &Vec<char>) -> (out: Vec<char>)
    ensures
        out@ == esc(v@),
{
    let mut out: Vec<char> = Vec::new();
    let mut i: usize = 0;
    proof {
        assert(v@.take(0) =~= Seq::<char>::empty());
    }
    while i < v.len()
        invariant
            0 <= i <= v.len(),
            out@ == esc(v@.take(i as int)),
        decreases v.len() - i,
    {
        let c = v[i];
        proof {
            lemma_esc_push(v@.take(i as int), c);
            assert(v@.take(i as int + 1) =~= v@.take(i as int).push(c));
        }
        if c == '"' {
            out.push('\\');
            out.push('"');
        } else if c == '\\' {
            out.push('\\');
            out.push('\\');
        } else if c == '\n' {
            out.push('\\');
            out.push('n');
        } else if c == '\r' {
            out.push('\\');
            out.push('r');
        } else if c == '\t' {
            out.push('\\');
            out.push('t');
        } else if c == '\u{8}' {
            out.push('\\');
            out.push('b');
        } else if c == '\u{c}' {
            out.push('\\');
            out.push('f');
        } else if (c as u32) < 0x20 {
            out.push('\\');
            out.push('u');
            out.push('0');
            out.push('0');
            out.push(hex_digit_char((c as u32) / 16));
            out.push(hex_digit_char((c as u32) % 16));
        } else {
            out.push(c);
        }
        proof {
            assert(out@ =~= esc(v@.take(i as int + 1)));
        }
        i = i + 1;
    }
    proof {
        assert(v@.take(v@.len() as int) =~= v@);
    }
    out
}

/// Appends the quoted, escaped form of a string value.
fn append_quoted(out: &mut String, s: &String)
    ensures
        final (out)@ == old(out)@ + quoted(s@),
{
    out.append("\"");
    let v = str_to_char_vec(s.as_str());
    let e = escape_chars(&v);
    let es = char_vec_to_string(&e);
    out.append(es.as_str());
    out.append("\"");
    proof {
        assert(out@ =~= old(out)@ + quoted(s@));
    }
}

#[verifier::rlimit(100)]
fn append_opt_settings(out: &mut String, o: &OptimizationSettings)
    ensures
        final (out)@ == old(out)@ + enc_opt(o@),
{
    match (&o.auto_to_lower, &o.enable_i_like, &o.identity_strategy) {
        (Option::None, Option::None, Option::None) => {
            out.append("{}");
        },
        (Option::Some(a), Option::None, Option::None) => {
            out.append("{\n");
            out.append("        \"autoToLower\": ");
            append_quoted(out, a);
            out.append("\n      }");
        },
        (Option::None, Option::Some(e), Option::None) => {
            out.append("{\n");
            out.append("        \"enableILike\": ");
            append_quoted(out, e);
            out.append("\n      }");
        },
        (Option::None, Option::None, Option::Some(i)) => {
            out.append("{\n");
            out.append("        \"identityStrategy\": ");
            append_quoted(out, i);
            out.append("\n      }");
        },
        (Option::Some(a), Option::Some(e), Option::None) => {
            out.append("{\n");
            out.append("        \"autoToLower\": ");
            append_quoted(out, a);
            out.append(",\n");
            out.append("        \"enableILike\": ");
            append_quoted(out, e);
            out.append("\n      }");
        },
        (Option::Some(a), Option::None, Option::Some(i)) => {
            out.append("{\n");
            out.append("        \"autoToLower\": ");
            append_quoted(out, a);
            out.append(",\n");
            out.append("        \"identityStrategy\": ");
            append_quoted(out, i);
            out.append("\n      }");
        },
        (Option::None, Option::Some(e), Option::Some(i)) => {
            out.append("{\n");
            out.append("        \"enableILike\": ");
            append_quoted(out, e);
            out.append(",\n");
            out.append("        \"identityStrategy\": ");
            append_quoted(out, i);
            out.append("\n      }");
        },
        (Option::Some(a), Option::Some(e), Option::Some(i)) => {
            out.append("{\n");
            out.append("        \"autoToLower\": ");
            append_quoted(out, a);
            out.append(",\n");
            out.append("        \"enableILike\": ");
            append_quoted(out, e);
            out.append(",\n");
            out.append("        \"identityStrategy\": ");
            append_quoted(out, i);
            out.append("\n      }");
        },
    }
    proof {
        assert(out@ =~= old(out)@ + enc_opt(o@));
    }
}

#[verifier::rlimit(100)]
fn append_entry(out: &mut String, e: &DatabaseEntry)
    ensures
        final (out)@ == old(out)@ + enc_entry(e@),
{
    out.append("    {\n");
    out.append("      \"name\": ");
    append_quoted(out, &e.name);
    out.append(",\n");
    out.append("      \"connectionString\": ");
    append_quoted(out, &e.connection_string);
    out.append(",\n");
    out.append("      \"dbType\": ");
    append_quoted(out, &e.db_type);
    let ghost g1 = old(out)@ + entry_required(e@);
    proof {
        assert(out@ =~= g1);
    }
    match &e.description {
        Option::Some(d) => {
            out.append(",\n");
            out.append("      \"description\": ");
            append_quoted(out, d);
        },
        Option::None => {},
    }
    let ghost g2 = g1 + entry_opt_desc(e@);
    proof {
        assert(out@ =~= g2);
    }
    match e.is_default {
        Option::Some(b) => {
            out.append(",\n");
            out.append("      \"isDefault\": ");
            if b {
                out.append("true");
            } else {
                out.append("false");
            }
        },
        Option::None => {},
    }
    let ghost g3 = g2 + entry_opt_default(e@);
    proof {
        assert(out@ =~= g3);
    }
    match &e.optimization_settings {
        Option::Some(o) => {
            out.append(",\n");
            out.append("      \"optimizationSettings\": ");
            append_opt_settings(out, o);
        },
        Option::None => {},
    }
    let ghost g4 = g3 + entry_opt_settings(e@);
    proof {
        assert(out@ =~= g4);
    }
    out.append("\n    }");
    proof {
        assert(out@ =~= old(out)@ + enc_entry(e@));
    }
}

/// The pretty-printed text of a document: the entries under the `databases`
/// key, optional members omitted when absent. Deterministic: the text is a
/// function of the document alone.
pub fn encode(file: &DatabaseFile) -> (r: String)
    ensures
        r@ == encode_spec(file@),
{
    if file.databases.len() == 0 {
        let r = String::from_str("{\n  \"databases\": []\n}");
        return r;
    }
    let mut out = String::from_str("{\n  \"databases\": [\n");
    let ghost header = "{\n  \"databases\": [\n"@;
    let mut i: usize = 0;
    while i < file.databases.len()
        invariant
            0 < file.databases.len() ==> i <= file.databases.len(),
            0 <= i <= file.databases.len(),
            file@.len() == file.databases.len(),
            forall|k: int| 0 <= k < file.databases.len() ==> file@[k] == file.databases[k]@,
            i == 0 ==> out@ == header,
            i > 0 ==> out@ == header + enc_entries(file@.take(i as int)),
        decreases file.databases.len() - i,
    {
        if i > 0 {
            out.append(",\n");
        }
        append_entry(&mut out, &file.databases[i]);
        proof {
            let t = file@.take(i as int + 1);
            assert(t.last() == file@[i as int]);
            assert(t.drop_last() =~= file@.take(i as int));
            if i == 0 {
                assert(enc_entries(t) == enc_entry(file@[0]));
                assert(out@ =~= header + enc_entries(t));
            } else {
                assert(out@ =~= header + enc_entries(t));
            }
        }
        i = i + 1;
    }
    out.append("\n  ]\n}");
    proof {
        assert(file@.take(file@.len() as int) =~= file@);
        assert(out@ =~= encode_spec(file@));
    }
    out
}

pub proof fn lemma_hex_digit_val(n: int)
    requires
        0 <= n < 16,
    ensures
        hex_val(hex_digit(n)) == n,
{
}

/// Escaping adds nothing to text without quotes, backslashes or control
/// characters.
pub proof fn lemma_esc_plain(t: Seq<char>)
    requires
        forall|k: int|
            0 <= k < t.len() ==> t[k] != '"' && t[k] != '\\' && (t[k] as u32) >= 0x20,
    ensures
        esc(t) == t,
    decreases t.len(),
{
    if t.len() > 0 {
        lemma_esc_plain(t.drop_first());
        assert(esc_char(t[0]) =~= seq![t[0]]);
        assert(esc(t) =~= t);
    }
}

/// Reading a quoted string inverts escaping: from position `i`, where the
/// text holds the escaped content followed by the closing quote, the parser
/// returns exactly the original content.
pub proof fn lemma_parse_escaped(s: Seq<char>, i: int, content: Seq<char>, acc: Seq<char>)
    requires
        0 <= i,
        i + esc(content).len() < s.len(),
        s.subrange(i, i + esc(content).len() as int) == esc(content),
        s[i + esc(content).len() as int] == '"',
    ensures
        parse_str_body(s, i, acc) == Some(
            (acc + content, i + esc(content).len() + 1),
        ),
    decreases content.len(),
{
    let le = esc(content).len() as int;
    assert(forall|m: int| 0 <= m < le ==> s[i + m] == #[trigger] esc(content)[m]) by {
        assert(forall|m: int|
            0 <= m < le ==> #[trigger] s.subrange(i, i + le)[m] == s[i + m]);
    }
    if content.len() == 0 {
        assert(esc(content) == Seq::<char>::empty());
        assert(s[i] == '"');
        assert(acc + content =~= acc);
    } else {
        let c0 = content[0];
        let rest = content.drop_first();
        let e0 = esc_char(c0);
        let k = e0.len() as int;
        assert(esc(content) == e0 + esc(rest));
        assert forall|m: int| 0 <= m < k implies s[i + m] == e0[m] by {
            assert(s[i + m] == esc(content)[m]);
            assert(esc(content)[m] == (e0 + esc(rest))[m]);
            assert((e0 + esc(rest))[m] == e0[m]);
        }
        if c0 == '"' {
            assert(s[i] == '\\' && s[i + 1] == '"');
            assert(parse_str_body(s, i, acc) == parse_str_body(s, i + 2, acc.push(c0)));
        } else if c0 == '\\' {
            assert(s[i] == '\\' && s[i + 1] == '\\');
            assert(parse_str_body(s, i, acc) == parse_str_body(s, i + 2, acc.push(c0)));
        } else if c0 == '\n' {
            assert(s[i] == '\\' && s[i + 1] == 'n');
            assert(parse_str_body(s, i, acc) == parse_str_body(s, i + 2, acc.push(c0)));
        } else if c0 == '\r' {
            assert(s[i] == '\\' && s[i + 1] == 'r');
            assert(parse_str_body(s, i, acc) == parse_str_body(s, i + 2, acc.push(c0)));
        } else if c0 == '\t' {
            assert(s[i] == '\\' && s[i + 1] == 't');
            assert(parse_str_body(s, i, acc) == parse_str_body(s, i + 2, acc.push(c0)));
        } else if c0 == '\u{8}' {
            assert(s[i] == '\\' && s[i + 1] == 'b');
            assert(parse_str_body(s, i, acc) == parse_str_body(s, i + 2, acc.push(c0)));
        } else if c0 == '\u{c}' {
            assert(s[i] == '\\' && s[i + 1] == 'f');
            assert(parse_str_body(s, i, acc) == parse_str_body(s, i + 2, acc.push(c0)));
        } else if (c0 as u32) < 0x20 {
            let u = c0 as u32 as int;
            assert(s[i] == '\\' && s[i + 1] == 'u' && s[i + 2] == '0' && s[i + 3] == '0' && s[i
                + 4] == hex_digit(u / 16) && s[i + 5] == hex_digit(u % 16));
            lemma_hex_digit_val(u / 16);
            lemma_hex_digit_val(u % 16);
            assert(hex4(s, i + 2) == (u / 16) * 16 + u % 16);
            assert(hex4(s, i + 2) == u);
            assert(is_unicode_scalar(u as u32));
            vstd::utf8::char_u32_cast(c0, c0 as u32);
            assert((u as u32 as char) == c0);
            assert(parse_str_body(s, i, acc) == parse_str_body(s, i + 6, acc.push(c0)));
        } else {
            assert(e0 == seq![c0]);
            assert(s[i + 0] == e0[0]);
            assert(s[i] == c0);
            assert(parse_str_body(s, i, acc) == parse_str_body(s, i + 1, acc.push(c0)));
        }
        assert(forall|m: int| 0 <= m < esc(rest).len() ==> s[i + k + m] == esc(rest)[m]) by {
            assert(forall|m: int|
                0 <= m < esc(rest).len() ==> esc(content)[k + m] == esc(rest)[m]);
        }
        assert(s.subrange(i + k, i + k + esc(rest).len() as int) =~= esc(rest));
        lemma_parse_escaped(s, i + k, rest, acc.push(c0));
        assert(acc.push(c0) + rest =~= acc + content);
        assert(i + k + esc(rest).len() == i + le);
    }
}

/// The round trip of one string value: a quoted, escaped string anywhere in
/// a text reads back to exactly the original content.
pub proof fn lemma_quoted_round_trip(pre: Seq<char>, content: Seq<char>, post: Seq<char>)
    ensures
        parse_str_body(pre + quoted(content) + post, pre.len() as int + 1, Seq::<char>::empty())
            == Some((content, pre.len() as int + quoted(content).len() as int)),
{
    let s = pre + quoted(content) + post;
    let i: int = pre.len() as int + 1;
    reveal_strlit("\"");
    assert(quoted(content).len() == esc(content).len() + 2);
    assert(forall|m: int|
        0 <= m < esc(content).len() ==> s[i + m] == esc(content)[m]);
    assert(s.subrange(i as int, i + esc(content).len() as int) =~= esc(content));
    assert(s[i + esc(content).len() as int] == '"');
    lemma_parse_escaped(s, i as int, content, Seq::<char>::empty());
    assert(Seq::<char>::empty() + content =~= content);
}

/// The white space the document syntax allows between tokens.
pub open spec fn is_json_ws(c: char) -> bool {
    c == ' ' || c == '\n' || c == '\r' || c == '\t'
}

/// The first position at or after `i` that does not hold white space.
pub open spec fn skip_ws(s: Seq<char>, i: int) -> int
    decreases s.len() - i,
{
    if 0 <= i < s.len() && is_json_ws(s[i]) {
        skip_ws(s, i + 1)
    } else {
        i
    }
}

/// Skipping white space from the start of a run of white-space characters
/// lands on the first character that is not one.
pub proof fn lemma_skip_ws_run(s: Seq<char>, i: int, j: int)
    requires
        0 <= i <= j < s.len(),
        forall|m: int| i <= m < j ==> is_json_ws(s[m]),
        !is_json_ws(s[j]),
    ensures
        skip_ws(s, i) == j,
    decreases j - i,
{
    if i < j {
        lemma_skip_ws_run(s, i + 1, j);
    }
}

pub proof fn lemma_skip_ws_bounds(s: Seq<char>, i: int)
    requires
        0 <= i <= s.len(),
    ensures
        i <= skip_ws(s, i) <= s.len(),
    decreases s.len() - i,
{
    if i < s.len() && is_json_ws(s[i]) {
        lemma_skip_ws_bounds(s, i + 1);
    }
}

/// The numeric value of a hexadecimal digit, or `-1`.
pub open spec fn hex_val(c: char) -> int {
    let u = c as u32;
    if 48 <= u && u <= 57 {
        u - 48
    } else if 97 <= u && u <= 102 {
        u - 87
    } else if 65 <= u && u <= 70 {
        u - 55
    } else {
        -1
    }
}

/// The value of the four hexadecimal digits at `i`, or `-1`.
pub open spec fn hex4(s: Seq<char>, i: int) -> int {
    let a = hex_val(s[i]);
    let b = hex_val(s[i + 1]);
    let c = hex_val(s[i + 2]);
    let d = hex_val(s[i + 3]);
    if a >= 0 && b >= 0 && c >= 0 && d >= 0 {
        a * 4096 + b * 256 + c * 16 + d
    } else {
        -1
    }
}

/// The body of a quoted string from position `i` (just after the opening
/// quote): the accumulated characters with every escape decoded, and the
/// position just after the closing quote. `None` on an unterminated string,
/// a bad escape, a surrogate code, or a raw control character.
pub open spec fn parse_str_body(s: Seq<char>, i: int, acc: Seq<char>) -> Option<(Seq<char>, int)>
    decreases s.len() - i,
{
    if i < 0 || i >= s.len() {
        None
    } else if s[i] == '"' {
        Some((acc, i + 1))
    } else if s[i] == '\\' {
        if i + 1 >= s.len() {
            None
        } else {
            let e = s[i + 1];
            if e == '"' {
                parse_str_body(s, i + 2, acc.push('"'))
            } else if e == '\\' {
                parse_str_body(s, i + 2, acc.push('\\'))
            } else if e == '/' {
                parse_str_body(s, i + 2, acc.push('/'))
            } else if e == 'n' {
                parse_str_body(s, i + 2, acc.push('\n'))
            } else if e == 'r' {
                parse_str_body(s, i + 2, acc.push('\r'))
            } else if e == 't' {
                parse_str_body(s, i + 2, acc.push('\t'))
            } else if e == 'b' {
                parse_str_body(s, i + 2, acc.push('\u{8}'))
            } else if e == 'f' {
                parse_str_body(s, i + 2, acc.push('\u{c}'))
            } else if e == 'u' {
                if i + 6 <= s.len() {
                    let h = hex4(s, i + 2);
                    if h >= 0 && is_unicode_scalar(h as u32) {
                        parse_str_body(s, i + 6, acc.push(h as u32 as char))
                    } else {
                        None
                    }
                } else {
                    None
                }
            } else {
                None
            }
        }
    } else if (s[i] as u32) < 0x20 {
        None
    } else {
        parse_str_body(s, i + 1, acc.push(s[i]))
    }
}

pub proof fn lemma_parse_str_body_bounds(s: Seq<char>, i: int, acc: Seq<char>)
    ensures
        parse_str_body(s, i, acc) matches Some(r) ==> i + 1 <= r.1 <= s.len(),
    decreases s.len() - i,
{
    if 0 <= i < s.len() {
        if s[i] == '"' {
        } else if s[i] == '\\' {
            if i + 1 < s.len() {
                let e = s[i + 1];
                if e == 'u' {
                    if i + 6 <= s.len() {
                        let h = hex4(s, i + 2);
                        if h >= 0 && is_unicode_scalar(h as u32) {
                            lemma_parse_str_body_bounds(s, i + 6, acc.push(h as u32 as char));
                        }
                    }
                } else {
                    lemma_parse_str_body_bounds(s, i + 2, acc.push(e));
                    lemma_parse_str_body_bounds(s, i + 2, acc.push('"'));
                    lemma_parse_str_body_bounds(s, i + 2, acc.push('\\'));
                    lemma_parse_str_body_bounds(s, i + 2, acc.push('/'));
                    lemma_parse_str_body_bounds(s, i + 2, acc.push('\n'));
                    lemma_parse_str_body_bounds(s, i + 2, acc.push('\r'));
                    lemma_parse_str_body_bounds(s, i + 2, acc.push('\t'));
                    lemma_parse_str_body_bounds(s, i + 2, acc.push('\u{8}'));
                    lemma_parse_str_body_bounds(s, i + 2, acc.push('\u{c}'));
                }
            }
        } else {
            lemma_parse_str_body_bounds(s, i + 1, acc.push(s[i]));
        }
    }
}

/// A `true` or `false` literal at `i`.
pub open spec fn parse_bool(s: Seq<char>, i: int) -> Option<(bool, int)> {
    if i >= 0 && i + 4 <= s.len() && s[i] == 't' && s[i + 1] == 'r' && s[i + 2] == 'u' && s[i + 3]
        == 'e' {
        Some((true, i + 4))
    } else if i >= 0 && i + 5 <= s.len() && s[i] == 'f' && s[i + 1] == 'a' && s[i + 2] == 'l' && s[i
        + 3] == 's' && s[i + 4] == 'e' {
        Some((false, i + 5))
    } else {
        None
    }
}

/// The settings value with no member present.
pub open spec fn empty_opt_view() -> OptView {
    OptView { auto_to_lower: None, enable_i_like: None, identity_strategy: None }
}

/// The members of an optimization-settings object from `i` (at the opening
/// quote of a key) to the closing brace: each key once, in any order, each
/// value a string.
pub open spec fn parse_opt_members(s: Seq<char>, i: int, acc: OptView) -> Option<(OptView, int)>
    decreases s.len() - i,
    when 0 <= i <= s.len()
    via parse_opt_members_dec
{
    if i < s.len() && s[i] == '"' {
        match parse_str_body(s, i + 1, Seq::<char>::empty()) {
            Some((k, j)) => {
                let j2 = skip_ws(s, j);
                if j2 < s.len() && s[j2] == ':' {
                    let j3 = skip_ws(s, j2 + 1);
                    if j3 < s.len() && s[j3] == '"' {
                        match parse_str_body(s, j3 + 1, Seq::<char>::empty()) {
                            Some((v, j4)) => {
                                let a2 = if k == "autoToLower"@ && acc.auto_to_lower is None {
                                    Some(OptView { auto_to_lower: Some(v), ..acc })
                                } else if k == "enableILike"@ && acc.enable_i_like is None {
                                    Some(OptView { enable_i_like: Some(v), ..acc })
                                } else if k == "identityStrategy"@ && acc.identity_strategy
                                    is None {
                                    Some(OptView { identity_strategy: Some(v), ..acc })
                                } else {
                                    None
                                };
                                match a2 {
                                    Some(acc2) => {
                                        let j5 = skip_ws(s, j4);
                                        if j5 < s.len() && s[j5] == ',' {
                                            parse_opt_members(s, skip_ws(s, j5 + 1), acc2)
                                        } else if j5 < s.len() && s[j5] == '}' {
                                            Some((acc2, j5 + 1))
                                        } else {
                                            None
                                        }
                                    },
                                    None => None,
                                }
                            },
                            None => None,
                        }
                    } else {
                        None
                    }
                } else {
                    None
                }
            },
            None => None,
        }
    } else {
        None
    }
}

#[via_fn]
proof fn parse_opt_members_dec(s: Seq<char>, i: int, acc: OptView) {
    if i < s.len() && s[i] == '"' {
        lemma_parse_str_body_bounds(s, i + 1, Seq::<char>::empty());
        match parse_str_body(s, i + 1, Seq::<char>::empty()) {
            Some((k, j)) => {
                lemma_skip_ws_bounds(s, j);
                let j2 = skip_ws(s, j);
                if j2 < s.len() && s[j2] == ':' {
                    lemma_skip_ws_bounds(s, j2 + 1);
                    let j3 = skip_ws(s, j2 + 1);
                    if j3 < s.len() && s[j3] == '"' {
                        lemma_parse_str_body_bounds(s, j3 + 1, Seq::<char>::empty());
                        match parse_str_body(s, j3 + 1, Seq::<char>::empty()) {
                            Some((v, j4)) => {
                                lemma_skip_ws_bounds(s, j4);
                                let j5 = skip_ws(s, j4);
                                if j5 < s.len() && s[j5] == ',' {
                                    lemma_skip_ws_bounds(s, j5 + 1);
                                }
                            },
                            None => (),
                        }
                    }
                }
            },
            None => (),
        }
    }
}

/// An optimization-settings object at `i` (at the opening brace).
pub open spec fn parse_opt_obj(s: Seq<char>, i: int) -> Option<(OptView, int)> {
    if 0 <= i < s.len() && s[i] == '{' {
        let j = skip_ws(s, i + 1);
        if j < s.len() && s[j] == '}' {
            Some((empty_opt_view(), j + 1))
        } else {
            parse_opt_members(s, j, empty_opt_view())
        }
    } else {
        None
    }
}

pub proof fn lemma_parse_opt_members_bounds(s: Seq<char>, i: int, acc: OptView)
    requires
        0 <= i <= s.len(),
    ensures
        parse_opt_members(s, i, acc) matches Some(r) ==> i < r.1 <= s.len(),
    decreases s.len() - i,
{
    if i < s.len() && s[i] == '"' {
        lemma_parse_str_body_bounds(s, i + 1, Seq::<char>::empty());
        match parse_str_body(s, i + 1, Seq::<char>::empty()) {
            Some((k, j)) => {
                lemma_skip_ws_bounds(s, j);
                let j2 = skip_ws(s, j);
                if j2 < s.len() && s[j2] == ':' {
                    lemma_skip_ws_bounds(s, j2 + 1);
                    let j3 = skip_ws(s, j2 + 1);
                    if j3 < s.len() && s[j3] == '"' {
                        lemma_parse_str_body_bounds(s, j3 + 1, Seq::<char>::empty());
                        match parse_str_body(s, j3 + 1, Seq::<char>::empty()) {
                            Some((v, j4)) => {
                                lemma_skip_ws_bounds(s, j4);
                                let j5 = skip_ws(s, j4);
                                if j5 < s.len() && s[j5] == ',' {
                                    lemma_skip_ws_bounds(s, j5 + 1);
                                    let a2 = if k == "autoToLower"@ && acc.auto_to_lower is None {
                                        Some(OptView { auto_to_lower: Some(v), ..acc })
                                    } else if k == "enableILike"@ && acc.enable_i_like is None {
                                        Some(OptView { enable_i_like: Some(v), ..acc })
                                    } else if k == "identityStrategy"@ && acc.identity_strategy
                                        is None {
                                        Some(OptView { identity_strategy: Some(v), ..acc })
                                    } else {
                                        None
                                    };
                                    match a2 {
                                        Some(acc2) => {
                                            lemma_parse_opt_members_bounds(
                                                s,
                                                skip_ws(s, j5 + 1),
                                                acc2,
                                            );
                                        },
                                        None => (),
                                    }
                                }
                            },
                            None => (),
                        }
                    }
                }
            },
            None => (),
        }
    }
}

/// An entry while its members are being read: each field is still absent
/// until its member has appeared.
pub ghost struct PartialEntry {
    pub name: Option<Seq<char>>,
    pub connection_string: Option<Seq<char>>,
    pub db_type: Option<Seq<char>>,
    pub description: Option<Seq<char>>,
    pub is_default: Option<bool>,
    pub optimization_settings: Option<OptView>,
}

pub open spec fn empty_partial() -> PartialEntry {
    PartialEntry {
        name: None,
        connection_string: None,
        db_type: None,
        description: None,
        is_default: None,
        optimization_settings: None,
    }
}

/// The entry a finished member list denotes; `None` while a required member
/// is missing.
pub open spec fn finish_entry(p: PartialEntry) -> Option<EntryView> {
    match (p.name, p.connection_string, p.db_type) {
        (Option::Some(n), Option::Some(c), Option::Some(d)) => Some(
            EntryView {
                name: n,
                connection_string: c,
                db_type: d,
                description: p.description,
                is_default: p.is_default,
                optimization_settings: p.optimization_settings,
            },
        ),
        _ => None,
    }
}

/// One member of an entry object: the key at `i` dispatches on its name, a
/// repeated or unknown key fails, and the value must have the member's type.
/// Returns the updated fields and the position after the value.
pub open spec fn parse_entry_member(s: Seq<char>, i: int, acc: PartialEntry) -> Option<
    (PartialEntry, int),
> {
    if i < s.len() && s[i] == '"' {
        match parse_str_body(s, i + 1, Seq::<char>::empty()) {
            Some((k, j)) => {
                let j2 = skip_ws(s, j);
                if j2 < s.len() && s[j2] == ':' {
                    let j3 = skip_ws(s, j2 + 1);
                    if k == "name"@ && acc.name is None {
                        if j3 < s.len() && s[j3] == '"' {
                            match parse_str_body(s, j3 + 1, Seq::<char>::empty()) {
                                Some((v, j4)) => Some(
                                    (PartialEntry { name: Some(v), ..acc }, j4),
                                ),
                                None => None,
                            }
                        } else {
                            None
                        }
                    } else if k == "connectionString"@ && acc.connection_string is None {
                        if j3 < s.len() && s[j3] == '"' {
                            match parse_str_body(s, j3 + 1, Seq::<char>::empty()) {
                                Some((v, j4)) => Some(
                                    (PartialEntry { connection_string: Some(v), ..acc }, j4),
                                ),
                                None => None,
                            }
                        } else {
                            None
                        }
                    } else if k == "dbType"@ && acc.db_type is None {
                        if j3 < s.len() && s[j3] == '"' {
                            match parse_str_body(s, j3 + 1, Seq::<char>::empty()) {
                                Some((v, j4)) => Some(
                                    (PartialEntry { db_type: Some(v), ..acc }, j4),
                                ),
                                None => None,
                            }
                        } else {
                            None
                        }
                    } else if k == "description"@ && acc.description is None {
                        if j3 < s.len() && s[j3] == '"' {
                            match parse_str_body(s, j3 + 1, Seq::<char>::empty()) {
                                Some((v, j4)) => Some(
                                    (PartialEntry { description: Some(v), ..acc }, j4),
                                ),
                                None => None,
                            }
                        } else {
                            None
                        }
                    } else if k == "isDefault"@ && acc.is_default is None {
                        match parse_bool(s, j3) {
                            Some((b, j4)) => Some(
                                (PartialEntry { is_default: Some(b), ..acc }, j4),
                            ),
                            None => None,
                        }
                    } else if k == "optimizationSettings"@ && acc.optimization_settings is None {
                        match parse_opt_obj(s, j3) {
                            Some((o, j4)) => Some(
                                (PartialEntry { optimization_settings: Some(o), ..acc }, j4),
                            ),
                            None => None,
                        }
                    } else {
                        None
                    }
                } else {
                    None
                }
            },
            None => None,
        }
    } else {
        None
    }
}

pub proof fn lemma_parse_entry_member_bounds(s: Seq<char>, i: int, acc: PartialEntry)
    requires
        0 <= i <= s.len(),
    ensures
        parse_entry_member(s, i, acc) matches Some(r) ==> i < r.1 <= s.len(),
{
    if i < s.len() && s[i] == '"' {
        lemma_parse_str_body_bounds(s, i + 1, Seq::<char>::empty());
        match parse_str_body(s, i + 1, Seq::<char>::empty()) {
            Some((k, j)) => {
                lemma_skip_ws_bounds(s, j);
                let j2 = skip_ws(s, j);
                if j2 < s.len() && s[j2] == ':' {
                    lemma_skip_ws_bounds(s, j2 + 1);
                    let j3 = skip_ws(s, j2 + 1);
                    lemma_parse_str_body_bounds(s, j3 + 1, Seq::<char>::empty());
                    lemma_parse_opt_obj_bounds(s, j3);
                }
            },
            None => (),
        }
    }
}

/// The members of an entry object from `i` (at the opening quote of a key)
/// to the closing brace.
pub open spec fn parse_entry_members(s: Seq<char>, i: int, acc: PartialEntry) -> Option<
    (PartialEntry, int),
>
    decreases s.len() - i,
    when 0 <= i <= s.len()
    via parse_entry_members_dec
{
    match parse_entry_member(s, i, acc) {
        Some((acc2, j4)) => {
            let j5 = skip_ws(s, j4);
            if j5 < s.len() && s[j5] == ',' {
                parse_entry_members(s, skip_ws(s, j5 + 1), acc2)
            } else if j5 < s.len() && s[j5] == '}' {
                Some((acc2, j5 + 1))
            } else {
                None
            }
        },
        None => None,
    }
}

#[via_fn]
proof fn parse_entry_members_dec(s: Seq<char>, i: int, acc: PartialEntry) {
    lemma_parse_entry_member_bounds(s, i, acc);
    match parse_entry_member(s, i, acc) {
        Some((acc2, j4)) => {
            lemma_skip_ws_bounds(s, j4);
            let j5 = skip_ws(s, j4);
            if j5 < s.len() && s[j5] == ',' {
                lemma_skip_ws_bounds(s, j5 + 1);
            }
        },
        None => (),
    }
}

pub proof fn lemma_parse_entry_members_bounds(s: Seq<char>, i: int, acc: PartialEntry)
    requires
        0 <= i <= s.len(),
    ensures
        parse_entry_members(s, i, acc) matches Some(r) ==> i < r.1 <= s.len(),
    decreases s.len() - i,
{
    lemma_parse_entry_member_bounds(s, i, acc);
    match parse_entry_member(s, i, acc) {
        Some((acc2, j4)) => {
            lemma_skip_ws_bounds(s, j4);
            let j5 = skip_ws(s, j4);
            if j5 < s.len() && s[j5] == ',' {
                lemma_skip_ws_bounds(s, j5 + 1);
                lemma_parse_entry_members_bounds(s, skip_ws(s, j5 + 1), acc2);
            }
        },
        None => (),
    }
}

/// An entry object at `i` (at the opening brace). An empty object fails:
/// the required members are missing.
pub open spec fn parse_entry_obj(s: Seq<char>, i: int) -> Option<(EntryView, int)> {
    if 0 <= i < s.len() && s[i] == '{' {
        let j = skip_ws(s, i + 1);
        match parse_entry_members(s, j, empty_partial()) {
            Some((p, j2)) => match finish_entry(p) {
                Some(e) => Some((e, j2)),
                None => None,
            },
            None => None,
        }
    } else {
        None
    }
}

pub proof fn lemma_parse_entry_obj_bounds(s: Seq<char>, i: int)
    ensures
        parse_entry_obj(s, i) matches Some(r) ==> i < r.1 <= s.len(),
{
    if 0 <= i < s.len() && s[i] == '{' {
        lemma_skip_ws_bounds(s, i + 1);
        lemma_parse_entry_members_bounds(s, skip_ws(s, i + 1), empty_partial());
    }
}

/// The elements of the entry array from `i` (at the opening brace of an
/// entry) to the closing bracket.
pub open spec fn parse_entry_items(s: Seq<char>, i: int, acc: Seq<EntryView>) -> Option<
    (Seq<EntryView>, int),
>
    decreases s.len() - i,
    when 0 <= i <= s.len()
    via parse_entry_items_dec
{
    match parse_entry_obj(s, i) {
        Some((e, j)) => {
            let j2 = skip_ws(s, j);
            if j2 < s.len() && s[j2] == ',' {
                parse_entry_items(s, skip_ws(s, j2 + 1), acc.push(e))
            } else if j2 < s.len() && s[j2] == ']' {
                Some((acc.push(e), j2 + 1))
            } else {
                None
            }
        },
        None => None,
    }
}

#[via_fn]
proof fn parse_entry_items_dec(s: Seq<char>, i: int, acc: Seq<EntryView>) {
    lemma_parse_entry_obj_bounds(s, i);
    match parse_entry_obj(s, i) {
        Some((e, j)) => {
            lemma_skip_ws_bounds(s, j);
            let j2 = skip_ws(s, j);
            if j2 < s.len() && s[j2] == ',' {
                lemma_skip_ws_bounds(s, j2 + 1);
            }
        },
        None => (),
    }
}

pub proof fn lemma_parse_entry_items_bounds(s: Seq<char>, i: int, acc: Seq<EntryView>)
    requires
        0 <= i <= s.len(),
    ensures
        parse_entry_items(s, i, acc) matches Some(r) ==> i < r.1 <= s.len(),
    decreases s.len() - i,
{
    lemma_parse_entry_obj_bounds(s, i);
    match parse_entry_obj(s, i) {
        Some((e, j)) => {
            lemma_skip_ws_bounds(s, j);
            let j2 = skip_ws(s, j);
            if j2 < s.len() && s[j2] == ',' {
                lemma_skip_ws_bounds(s, j2 + 1);
                lemma_parse_entry_items_bounds(s, skip_ws(s, j2 + 1), acc.push(e));
            }
        },
        None => (),
    }
}

/// The entry array at `i` (at the opening bracket).
pub open spec fn parse_entry_array(s: Seq<char>, i: int) -> Option<(Seq<EntryView>, int)> {
    if 0 <= i < s.len() && s[i] == '[' {
        let j = skip_ws(s, i + 1);
        if j < s.len() && s[j] == ']' {
            Some((Seq::<EntryView>::empty(), j + 1))
        } else {
            parse_entry_items(s, j, Seq::<EntryView>::empty())
        }
    } else {
        None
    }
}

/// The language the parser accepts, and the document a text denotes: a root
/// object whose one member is `databases` holding the entry array, with
/// nothing but white space around the tokens and after the object.
pub open spec fn decode_spec(s: Seq<char>) -> Option<Seq<EntryView>> {
    let i = skip_ws(s, 0);
    if i < s.len() && s[i] == '{' {
        let j = skip_ws(s, i + 1);
        if j < s.len() && s[j] == '"' {
            match parse_str_body(s, j + 1, Seq::<char>::empty()) {
                Some((k, j2)) => {
                    if k == "databases"@ {
                        let j3 = skip_ws(s, j2);
                        if j3 < s.len() && s[j3] == ':' {
                            let j4 = skip_ws(s, j3 + 1);
                            match parse_entry_array(s, j4) {
                                Some((entries, j5)) => {
                                    let j6 = skip_ws(s, j5);
                                    if j6 < s.len() && s[j6] == '}' {
                                        if skip_ws(s, j6 + 1) == s.len() {
                                            Some(entries)
                                        } else {
                                            None
                                        }
                                    } else {
                                        None
                                    }
                                },
                                None => None,
                            }
                        } else {
                            None
                        }
                    } else {
                        None
                    }
                },
                None => None,
            }
        } else {
            None
        }
    } else {
        None
    }
}

pub proof fn lemma_parse_opt_obj_bounds(s: Seq<char>, i: int)
    ensures
        parse_opt_obj(s, i) matches Some(r) ==> i < r.1 <= s.len(),
{
    if 0 <= i < s.len() && s[i] == '{' {
        lemma_skip_ws_bounds(s, i + 1);
        let j = skip_ws(s, i + 1);
        if !(j < s.len() && s[j] == '}') {
            lemma_parse_opt_members_bounds(s, j, empty_opt_view());
        }
    }
}

fn skip_ws_exec(v: &Vec<char>, i: usize) -> (r: usize)
    requires
        i <= v@.len(),
    ensures
        r as int == skip_ws(v@, i as int),
        i <= r <= v@.len(),
{
    let mut cur = i;
    while cur < v.len() && (v[cur] == ' ' || v[cur] == '\n' || v[cur] == '\r' || v[cur] == '\t')
        invariant
            i <= cur <= v@.len(),
            skip_ws(v@, i as int) == skip_ws(v@, cur as int),
        decreases v@.len() - cur,
    {
        cur = cur + 1;
    }
    cur
}

fn chars_eq(a: &Vec<char>, b: &Vec<char>) -> (r: bool)
    ensures
        r == (a@ == b@),
{
    if a.len() != b.len() {
        return false;
    }
    let mut i: usize = 0;
    while i < a.len()
        invariant
            0 <= i <= a@.len(),
            a@.len() == b@.len(),
            forall|j: int| 0 <= j < i ==> a@[j] == b@[j],
        decreases a@.len() - i,
    {
        if a[i] != b[i] {
            return false;
        }
        i = i + 1;
    }
    proof {
        assert(a@ =~= b@);
    }
    true
}

fn key_is(k: &Vec<char>, lit: &str) -> (r: bool)
    ensures
        r == (k@ == lit@),
{
    let lv = str_to_char_vec(lit);
    chars_eq(k, &lv)
}

fn hex_val_exec(c: char) -> (r: i32)
    ensures
        r as int == hex_val(c),
{
    let u = c as u32;
    if 48 <= u && u <= 57 {
        (u - 48) as i32
    } else if 97 <= u && u <= 102 {
        (u - 87) as i32
    } else if 65 <= u && u <= 70 {
        (u - 55) as i32
    } else {
        -1
    }
}

/// The body of a quoted string, read from just after the opening quote.
fn scan_string(v: &Vec<char>, start: usize) -> (r: Option<(Vec<char>, usize)>)
    requires
        start <= v@.len(),
    ensures
        match r {
            Some(p) => parse_str_body(v@, start as int, Seq::<char>::empty()) == Some(
                (p.0@, p.1 as int),
            ) && start < p.1 <= v@.len(),
            None => parse_str_body(v@, start as int, Seq::<char>::empty()) is None,
        },
{
    let n = v.len();
    let mut cur = start;
    let mut acc: Vec<char> = Vec::new();
    proof {
        assert(acc@ =~= Seq::<char>::empty());
    }
    loop
        invariant
            start <= cur <= n,
            n == v@.len(),
            parse_str_body(v@, start as int, Seq::<char>::empty()) == parse_str_body(
                v@,
                cur as int,
                acc@,
            ),
        decreases n - cur,
    {
        if cur >= n {
            return None;
        }
        let c = v[cur];
        if c == '"' {
            return Some((acc, cur + 1));
        } else if c == '\\' {
            if n - cur < 2 {
                return None;
            }
            let e = v[cur + 1];
            if e == '"' {
                acc.push('"');
                cur = cur + 2;
            } else if e == '\\' {
                acc.push('\\');
                cur = cur + 2;
            } else if e == '/' {
                acc.push('/');
                cur = cur + 2;
            } else if e == 'n' {
                acc.push('\n');
                cur = cur + 2;
            } else if e == 'r' {
                acc.push('\r');
                cur = cur + 2;
            } else if e == 't' {
                acc.push('\t');
                cur = cur + 2;
            } else if e == 'b' {
                acc.push('\u{8}');
                cur = cur + 2;
            } else if e == 'f' {
                acc.push('\u{c}');
                cur = cur + 2;
            } else if e == 'u' {
                if n - cur < 6 {
                    return None;
                }
                let a = hex_val_exec(v[cur + 2]);
                let b = hex_val_exec(v[cur + 3]);
                let cc = hex_val_exec(v[cur + 4]);
                let d = hex_val_exec(v[cur + 5]);
                if !(a >= 0 && b >= 0 && cc >= 0 && d >= 0) {
                    return None;
                }
                let h: i32 = a * 4096 + b * 256 + cc * 16 + d;
                proof {
                    assert(h as int == hex4(v@, cur as int + 2));
                }
                if !(h < 0xd800 || h >= 0xe000) {
                    return None;
                }
                let ch = match char_from_code(h as u32) {
                    Some(ch) => ch,
                    None => {
                        proof {
                            assert(false);
                        }
                        ' '
                    },
                };
                proof {
                    vstd::utf8::char_u32_cast(ch, h as u32);
                }
                acc.push(ch);
                cur = cur + 6;
            } else {
                return None;
            }
        } else if (c as u32) < 0x20 {
            return None;
        } else {
            acc.push(c);
            cur = cur + 1;
        }
    }
}

fn parse_bool_exec(v: &Vec<char>, i: usize) -> (r: Option<(bool, usize)>)
    requires
        i <= v@.len(),
    ensures
        match r {
            Some(p) => parse_bool(v@, i as int) == Some((p.0, p.1 as int)) && i < p.1 <= v@.len(),
            None => parse_bool(v@, i as int) is None,
        },
{
    let n = v.len();
    if n - i >= 4 && v[i] == 't' && v[i + 1] == 'r' && v[i + 2] == 'u' && v[i + 3] == 'e' {
        Some((true, i + 4))
    } else if n - i >= 5 && v[i] == 'f' && v[i + 1] == 'a' && v[i + 2] == 'l' && v[i + 3] == 's'
        && v[i + 4] == 'e' {
        Some((false, i + 5))
    } else {
        None
    }
}

fn parse_opt_members_exec(v: &Vec<char>, start: usize) -> (r: Option<(OptimizationSettings, usize)>)
    requires
        start <= v@.len(),
    ensures
        match r {
            Some(p) => parse_opt_members(v@, start as int, empty_opt_view()) == Some(
                (p.0@, p.1 as int),
            ) && p.1 <= v@.len(),
            None => parse_opt_members(v@, start as int, empty_opt_view()) is None,
        },
{
    let n = v.len();
    let mut cur = start;
    let mut acc = OptimizationSettings {
        auto_to_lower: None,
        enable_i_like: None,
        identity_strategy: None,
    };
    proof {
        assert(acc@ == empty_opt_view());
    }
    loop
        invariant
            start <= cur <= n,
            n == v@.len(),
            parse_opt_members(v@, start as int, empty_opt_view()) == parse_opt_members(
                v@,
                cur as int,
                acc@,
            ),
        decreases n - cur,
    {
        if !(cur < n && v[cur] == '"') {
            return None;
        }
        let (k, j) = match scan_string(v, cur + 1) {
            Some(p) => p,
            None => {
                return None;
            },
        };
        let j2 = skip_ws_exec(v, j);
        if !(j2 < n && v[j2] == ':') {
            return None;
        }
        let j3 = skip_ws_exec(v, j2 + 1);
        if !(j3 < n && v[j3] == '"') {
            return None;
        }
        let (val, j4) = match scan_string(v, j3 + 1) {
            Some(p) => p,
            None => {
                return None;
            },
        };
        if key_is(&k, "autoToLower") && acc.auto_to_lower.is_none() {
            acc.auto_to_lower = Some(char_vec_to_string(&val));
        } else if key_is(&k, "enableILike") && acc.enable_i_like.is_none() {
            acc.enable_i_like = Some(char_vec_to_string(&val));
        } else if key_is(&k, "identityStrategy") && acc.identity_strategy.is_none() {
            acc.identity_strategy = Some(char_vec_to_string(&val));
        } else {
            return None;
        }
        let j5 = skip_ws_exec(v, j4);
        if j5 < n && v[j5] == ',' {
            cur = skip_ws_exec(v, j5 + 1);
        } else if j5 < n && v[j5] == '}' {
            return Some((acc, j5 + 1));
        } else {
            return None;
        }
    }
}

fn parse_opt_obj_exec(v: &Vec<char>, i: usize) -> (r: Option<(OptimizationSettings, usize)>)
    requires
        i <= v@.len(),
    ensures
        match r {
            Some(p) => parse_opt_obj(v@, i as int) == Some((p.0@, p.1 as int)) && i < p.1
                <= v@.len(),
            None => parse_opt_obj(v@, i as int) is None,
        },
{
    let n = v.len();
    if !(i < n && v[i] == '{') {
        return None;
    }
    let j = skip_ws_exec(v, i + 1);
    if j < n && v[j] == '}' {
        return Some(
            (
                OptimizationSettings {
                    auto_to_lower: None,
                    enable_i_like: None,
                    identity_strategy: None,
                },
                j + 1,
            ),
        );
    }
    proof {
        lemma_parse_opt_members_bounds(v@, j as int, empty_opt_view());
    }
    parse_opt_members_exec(v, j)
}

struct EntryDraft {
    name: Option<String>,
    connection_string: Option<String>,
    db_type: Option<String>,
    description: Option<String>,
    is_default: Option<bool>,
    optimization_settings: Option<OptimizationSettings>,
}

spec fn draft_view(d: &EntryDraft) -> PartialEntry {
    PartialEntry {
        name: crate::model::opt_str_view(d.name),
        connection_string: crate::model::opt_str_view(d.connection_string),
        db_type: crate::model::opt_str_view(d.db_type),
        description: crate::model::opt_str_view(d.description),
        is_default: d.is_default,
        optimization_settings: match d.optimization_settings {
            Some(o) => Some(o@),
            None => None,
        },
    }
}

#[verifier::rlimit(100)]
fn parse_entry_members_exec(v: &Vec<char>, start: usize) -> (r: Option<(EntryDraft, usize)>)
    requires
        start <= v@.len(),
    ensures
        match r {
            Some(p) => parse_entry_members(v@, start as int, empty_partial()) == Some(
                (draft_view(&p.0), p.1 as int),
            ) && p.1 <= v@.len(),
            None => parse_entry_members(v@, start as int, empty_partial()) is None,
        },
{
    let n = v.len();
    let mut cur = start;
    let mut acc = EntryDraft {
        name: None,
        connection_string: None,
        db_type: None,
        description: None,
        is_default: None,
        optimization_settings: None,
    };
    proof {
        assert(draft_view(&acc) == empty_partial());
    }
    loop
        invariant
            start <= cur <= n,
            n == v@.len(),
            parse_entry_members(v@, start as int, empty_partial()) == parse_entry_members(
                v@,
                cur as int,
                draft_view(&acc),
            ),
        decreases n - cur,
    {
        if !(cur < n && v[cur] == '"') {
            return None;
        }
        let (k, j) = match scan_string(v, cur + 1) {
            Some(p) => p,
            None => {
                return None;
            },
        };
        let j2 = skip_ws_exec(v, j);
        if !(j2 < n && v[j2] == ':') {
            return None;
        }
        let j3 = skip_ws_exec(v, j2 + 1);
        let j4: usize;
        if key_is(&k, "name") && acc.name.is_none() {
            if !(j3 < n && v[j3] == '"') {
                return None;
            }
            match scan_string(v, j3 + 1) {
                Some(p) => {
                    acc.name = Some(char_vec_to_string(&p.0));
                    j4 = p.1;
                },
                None => {
                    return None;
                },
            }
        } else if key_is(&k, "connectionString") && acc.connection_string.is_none() {
            if !(j3 < n && v[j3] == '"') {
                return None;
            }
            match scan_string(v, j3 + 1) {
                Some(p) => {
                    acc.connection_string = Some(char_vec_to_string(&p.0));
                    j4 = p.1;
                },
                None => {
                    return None;
                },
            }
        } else if key_is(&k, "dbType") && acc.db_type.is_none() {
            if !(j3 < n && v[j3] == '"') {
                return None;
            }
            match scan_string(v, j3 + 1) {
                Some(p) => {
                    acc.db_type = Some(char_vec_to_string(&p.0));
                    j4 = p.1;
                },
                None => {
                    return None;
                },
            }
        } else if key_is(&k, "description") && acc.description.is_none() {
            if !(j3 < n && v[j3] == '"') {
                return None;
            }
            match scan_string(v, j3 + 1) {
                Some(p) => {
                    acc.description = Some(char_vec_to_string(&p.0));
                    j4 = p.1;
                },
                None => {
                    return None;
                },
            }
        } else if key_is(&k, "isDefault") && acc.is_default.is_none() {
            match parse_bool_exec(v, j3) {
                Some(p) => {
                    acc.is_default = Some(p.0);
                    j4 = p.1;
                },
                None => {
                    return None;
                },
            }
        } else if key_is(&k, "optimizationSettings") && acc.optimization_settings.is_none() {
            match parse_opt_obj_exec(v, j3) {
                Some(p) => {
                    acc.optimization_settings = Some(p.0);
                    j4 = p.1;
                },
                None => {
                    return None;
                },
            }
        } else {
            return None;
        }
        let j5 = skip_ws_exec(v, j4);
        if j5 < n && v[j5] == ',' {
            cur = skip_ws_exec(v, j5 + 1);
        } else if j5 < n && v[j5] == '}' {
            return Some((acc, j5 + 1));
        } else {
            return None;
        }
    }
}

fn parse_entry_obj_exec(v: &Vec<char>, i: usize) -> (r: Option<(DatabaseEntry, usize)>)
    requires
        i <= v@.len(),
    ensures
        match r {
            Some(p) => parse_entry_obj(v@, i as int) == Some((p.0@, p.1 as int)) && i < p.1
                <= v@.len(),
            None => parse_entry_obj(v@, i as int) is None,
        },
{
    let n = v.len();
    if !(i < n && v[i] == '{') {
        return None;
    }
    let j = skip_ws_exec(v, i + 1);
    proof {
        lemma_parse_entry_members_bounds(v@, j as int, empty_partial());
    }
    let (draft, j2) = match parse_entry_members_exec(v, j) {
        Some(p) => p,
        None => {
            return None;
        },
    };
    match (draft.name, draft.connection_string, draft.db_type) {
        (Some(name), Some(connection_string), Some(db_type)) => {
            let e = DatabaseEntry {
                name,
                connection_string,
                db_type,
                description: draft.description,
                is_default: draft.is_default,
                optimization_settings: draft.optimization_settings,
            };
            Some((e, j2))
        },
        _ => None,
    }
}

#[verifier::rlimit(100)]
fn parse_entry_array_exec(v: &Vec<char>, i: usize) -> (r: Option<(Vec<DatabaseEntry>, usize)>)
    requires
        i <= v@.len(),
    ensures
        match r {
            Some(p) => parse_entry_array(v@, i as int) == Some(
                (Seq::new(p.0.len() as nat, |q: int| p.0[q]@), p.1 as int),
            ) && p.1 <= v@.len(),
            None => parse_entry_array(v@, i as int) is None,
        },
{
    let n = v.len();
    if !(i < n && v[i] == '[') {
        return None;
    }
    let j = skip_ws_exec(v, i + 1);
    if j < n && v[j] == ']' {
        let out: Vec<DatabaseEntry> = Vec::new();
        proof {
            assert(Seq::new(out.len() as nat, |q: int| out[q]@) =~= Seq::<EntryView>::empty());
        }
        return Some((out, j + 1));
    }
    let mut cur = j;
    let mut out: Vec<DatabaseEntry> = Vec::new();
    proof {
        assert(Seq::new(out.len() as nat, |q: int| out[q]@) =~= Seq::<EntryView>::empty());
    }
    proof {
        assert(parse_entry_array(v@, i as int) == parse_entry_items(
            v@,
            j as int,
            Seq::<EntryView>::empty(),
        ));
    }
    loop
        invariant
            j <= cur <= n,
            n == v@.len(),
            parse_entry_array(v@, i as int) == parse_entry_items(
                v@,
                j as int,
                Seq::<EntryView>::empty(),
            ),
            parse_entry_items(v@, j as int, Seq::<EntryView>::empty()) == parse_entry_items(
                v@,
                cur as int,
                Seq::new(out.len() as nat, |q: int| out[q]@),
            ),
        decreases n - cur,
    {
        let ghost accv = Seq::new(out.len() as nat, |q: int| out[q]@);
        let (e, j2) = match parse_entry_obj_exec(v, cur) {
            Some(p) => p,
            None => {
                return None;
            },
        };
        let j3 = skip_ws_exec(v, j2);
        out.push(e);
        proof {
            assert(Seq::new(out.len() as nat, |q: int| out[q]@) =~= accv.push(e@));
        }
        if j3 < n && v[j3] == ',' {
            cur = skip_ws_exec(v, j3 + 1);
        } else if j3 < n && v[j3] == ']' {
            return Some((out, j3 + 1));
        } else {
            return None;
        }
    }
}

/// Reads a document back from its textual form. `Some` exactly when the
/// text is in the document language, and then the document it denotes.
pub fn decode(text: &str) -> (r: Option<DatabaseFile>)
    ensures
        match r {
            Some(f) => decode_spec(text@) == Some(f@),
            None => decode_spec(text@) is None,
        },
{
    let v = str_to_char_vec(text);
    let n = v.len();
    let i = skip_ws_exec(&v, 0);
    if !(i < n && v[i] == '{') {
        return None;
    }
    let j = skip_ws_exec(&v, i + 1);
    if !(j < n && v[j] == '"') {
        return None;
    }
    let (k, j2) = match scan_string(&v, j + 1) {
        Some(p) => p,
        None => {
            return None;
        },
    };
    if !key_is(&k, "databases") {
        return None;
    }
    let j3 = skip_ws_exec(&v, j2);
    if !(j3 < n && v[j3] == ':') {
        return None;
    }
    let j4 = skip_ws_exec(&v, j3 + 1);
    let (entries, j5) = match parse_entry_array_exec(&v, j4) {
        Some(p) => p,
        None => {
            return None;
        },
    };
    let j6 = skip_ws_exec(&v, j5);
    if !(j6 < n && v[j6] == '}') {
        return None;
    }
    if skip_ws_exec(&v, j6 + 1) != n {
        return None;
    }
    let f = DatabaseFile { databases: entries };
    proof {
        assert(f@ =~= Seq::new(f.databases.len() as nat, |q: int| f.databases[q]@));
    }
    Some(f)
}

/// Parses one `"key": "value"` member whose region is given character by
/// character: the key and the value both read back exactly, and the white
/// space around the colon is walked as written. `q` is the position of the
/// key's opening quote.
proof fn lemma_opt_member_parse(s: Seq<char>, q: int, key: Seq<char>, v: Seq<char>)
    requires
        0 <= q,
        q + 6 + key.len() + esc(v).len() <= s.len(),
        s[q] == '"',
        forall|k: int|
            0 <= k < key.len() ==> key[k] != '"' && key[k] != '\\' && (key[k] as u32) >= 0x20,
        s.subrange(q + 1, q + 1 + key.len() as int) == key,
        s[q + 1 + key.len() as int] == '"',
        s[q + 2 + key.len() as int] == ':',
        s[q + 3 + key.len() as int] == ' ',
        s[q + 4 + key.len() as int] == '"',
        s.subrange(q + 5 + key.len() as int, q + 5 + key.len() + esc(v).len()) == esc(v),
        s[q + 5 + key.len() + esc(v).len()] == '"',
    ensures
        parse_str_body(s, q + 1, Seq::<char>::empty()) == Some((key, q + 2 + key.len() as int)),
        skip_ws(s, q + 2 + key.len() as int) == q + 2 + key.len(),
        skip_ws(s, q + 3 + key.len() as int) == q + 4 + key.len(),
        parse_str_body(s, q + 5 + key.len() as int, Seq::<char>::empty()) == Some(
            (v, q + 6 + key.len() + esc(v).len()),
        ),
{
    let kl = key.len() as int;
    lemma_esc_plain(key);
    lemma_parse_escaped(s, q + 1, key, Seq::<char>::empty());
    assert(Seq::<char>::empty() + key =~= key);
    assert(!is_json_ws(s[q + 2 + kl]));
    assert(skip_ws(s, q + 2 + kl) == q + 2 + kl);
    assert(!is_json_ws(s[q + 4 + kl]));
    assert(skip_ws(s, q + 4 + kl) == q + 4 + kl);
    assert(is_json_ws(s[q + 3 + kl]));
    assert(skip_ws(s, q + 3 + kl) == skip_ws(s, q + 4 + kl));
    lemma_parse_escaped(s, q + 5 + kl, v, Seq::<char>::empty());
    assert(Seq::<char>::empty() + v =~= v);
}

/// The character facts of an `autoToLower` member standing at `q0`: its
/// eight spaces of indent, its key and its value as the parser meets them.
proof fn lemma_atl_region(s: Seq<char>, q0: int, a: Seq<char>)
    requires
        0 <= q0,
        q0 + 25 + esc(a).len() <= s.len(),
        s.subrange(q0, q0 + 25 + esc(a).len() as int) == m_atl(a),
    ensures
        forall|m: int| q0 <= m < q0 + 8 ==> is_json_ws(#[trigger] s[m]),
        s[q0 + 8] == '"' && !is_json_ws(s[q0 + 8]),
        parse_str_body(s, q0 + 9, Seq::<char>::empty()) == Some(("autoToLower"@, q0 + 21)),
        s[q0 + 21] == ':',
        s[q0 + 23] == '"',
        skip_ws(s, q0 + 21) == q0 + 21,
        skip_ws(s, q0 + 22) == q0 + 23,
        parse_str_body(s, q0 + 24, Seq::<char>::empty()) == Some((a, q0 + 25 + esc(a).len())),
{
    let r = m_atl(a);
    let lit = "        \"autoToLower\": "@;
    let key = "autoToLower"@;
    let ea = esc(a).len() as int;
    reveal_strlit("        \"autoToLower\": ");
    reveal_strlit("autoToLower");
    reveal_strlit("\"");
    assert(lit.len() == 23);
    assert(key.len() == 11);
    assert(r.len() == 25 + ea);
    assert forall|m: int| 0 <= m < 25 + ea implies s[q0 + m] == #[trigger] r[m] by {
        assert(s.subrange(q0, q0 + 25 + ea)[m] == s[q0 + m]);
    }
    assert forall|m: int| q0 <= m < q0 + 8 implies is_json_ws(#[trigger] s[m]) by {
        assert(s[m] == r[m - q0]);
        assert(r[m - q0] == lit[m - q0]);
    }
    assert(s[q0 + 8] == r[8] && r[8] == lit[8] && lit[8] == '"');
    assert forall|t: int| 0 <= t < 11 implies s[q0 + 9 + t] == #[trigger] key[t] by {
        assert(s[q0 + 9 + t] == r[9 + t]);
        assert(r[9 + t] == lit[9 + t]);
    }
    assert(s.subrange(q0 + 9, q0 + 20) =~= key);
    assert(s[q0 + 20] == r[20] && r[20] == lit[20] && lit[20] == '"');
    assert(s[q0 + 21] == r[21] && r[21] == lit[21] && lit[21] == ':');
    assert(s[q0 + 22] == r[22] && r[22] == lit[22] && lit[22] == ' ');
    assert(s[q0 + 23] == r[23] && r[23] == quoted(a)[0] && quoted(a)[0] == '"');
    assert forall|t: int| 0 <= t < ea implies s[q0 + 24 + t] == #[trigger] esc(a)[t] by {
        assert(s[q0 + 24 + t] == r[24 + t]);
        assert(r[24 + t] == quoted(a)[1 + t]);
    }
    assert(s.subrange(q0 + 24, q0 + 24 + ea) =~= esc(a));
    assert(s[q0 + 24 + ea] == r[24 + ea] && r[24 + ea] == quoted(a)[1 + ea] && quoted(a)[1 + ea]
        == '"');
    lemma_opt_member_parse(s, q0 + 8, key, a);
}

/// The character facts of an `enableILike` member standing at `q0`.
proof fn lemma_eil_region(s: Seq<char>, q0: int, e: Seq<char>)
    requires
        0 <= q0,
        q0 + 25 + esc(e).len() <= s.len(),
        s.subrange(q0, q0 + 25 + esc(e).len() as int) == m_eil(e),
    ensures
        forall|m: int| q0 <= m < q0 + 8 ==> is_json_ws(#[trigger] s[m]),
        s[q0 + 8] == '"' && !is_json_ws(s[q0 + 8]),
        parse_str_body(s, q0 + 9, Seq::<char>::empty()) == Some(("enableILike"@, q0 + 21)),
        s[q0 + 21] == ':',
        s[q0 + 23] == '"',
        skip_ws(s, q0 + 21) == q0 + 21,
        skip_ws(s, q0 + 22) == q0 + 23,
        parse_str_body(s, q0 + 24, Seq::<char>::empty()) == Some((e, q0 + 25 + esc(e).len())),
{
    let r = m_eil(e);
    let lit = "        \"enableILike\": "@;
    let key = "enableILike"@;
    let ea = esc(e).len() as int;
    reveal_strlit("        \"enableILike\": ");
    reveal_strlit("enableILike");
    reveal_strlit("\"");
    assert(lit.len() == 23);
    assert(key.len() == 11);
    assert(r.len() == 25 + ea);
    assert forall|m: int| 0 <= m < 25 + ea implies s[q0 + m] == #[trigger] r[m] by {
        assert(s.subrange(q0, q0 + 25 + ea)[m] == s[q0 + m]);
    }
    assert forall|m: int| q0 <= m < q0 + 8 implies is_json_ws(#[trigger] s[m]) by {
        assert(s[m] == r[m - q0]);
        assert(r[m - q0] == lit[m - q0]);
    }
    assert(s[q0 + 8] == r[8] && r[8] == lit[8] && lit[8] == '"');
    assert forall|t: int| 0 <= t < 11 implies s[q0 + 9 + t] == #[trigger] key[t] by {
        assert(s[q0 + 9 + t] == r[9 + t]);
        assert(r[9 + t] == lit[9 + t]);
    }
    assert(s.subrange(q0 + 9, q0 + 20) =~= key);
    assert(s[q0 + 20] == r[20] && r[20] == lit[20] && lit[20] == '"');
    assert(s[q0 + 21] == r[21] && r[21] == lit[21] && lit[21] == ':');
    assert(s[q0 + 22] == r[22] && r[22] == lit[22] && lit[22] == ' ');
    assert(s[q0 + 23] == r[23] && r[23] == quoted(e)[0] && quoted(e)[0] == '"');
    assert forall|t: int| 0 <= t < ea implies s[q0 + 24 + t] == #[trigger] esc(e)[t] by {
        assert(s[q0 + 24 + t] == r[24 + t]);
        assert(r[24 + t] == quoted(e)[1 + t]);
    }
    assert(s.subrange(q0 + 24, q0 + 24 + ea) =~= esc(e));
    assert(s[q0 + 24 + ea] == r[24 + ea] && r[24 + ea] == quoted(e)[1 + ea] && quoted(e)[1 + ea]
        == '"');
    lemma_opt_member_parse(s, q0 + 8, key, e);
}

/// The character facts of an `identityStrategy` member standing at `q0`.
proof fn lemma_ids_region(s: Seq<char>, q0: int, v: Seq<char>)
    requires
        0 <= q0,
        q0 + 30 + esc(v).len() <= s.len(),
        s.subrange(q0, q0 + 30 + esc(v).len() as int) == m_ids(v),
    ensures
        forall|m: int| q0 <= m < q0 + 8 ==> is_json_ws(#[trigger] s[m]),
        s[q0 + 8] == '"' && !is_json_ws(s[q0 + 8]),
        parse_str_body(s, q0 + 9, Seq::<char>::empty()) == Some(("identityStrategy"@, q0 + 26)),
        s[q0 + 26] == ':',
        s[q0 + 28] == '"',
        skip_ws(s, q0 + 26) == q0 + 26,
        skip_ws(s, q0 + 27) == q0 + 28,
        parse_str_body(s, q0 + 29, Seq::<char>::empty()) == Some((v, q0 + 30 + esc(v).len())),
{
    let r = m_ids(v);
    let lit = "        \"identityStrategy\": "@;
    let key = "identityStrategy"@;
    let ea = esc(v).len() as int;
    reveal_strlit("        \"identityStrategy\": ");
    reveal_strlit("identityStrategy");
    reveal_strlit("\"");
    assert(lit.len() == 28);
    assert(key.len() == 16);
    assert(r.len() == 30 + ea);
    assert forall|m: int| 0 <= m < 30 + ea implies s[q0 + m] == #[trigger] r[m] by {
        assert(s.subrange(q0, q0 + 30 + ea)[m] == s[q0 + m]);
    }
    assert forall|m: int| q0 <= m < q0 + 8 implies is_json_ws(#[trigger] s[m]) by {
        assert(s[m] == r[m - q0]);
        assert(r[m - q0] == lit[m - q0]);
    }
    assert(s[q0 + 8] == r[8] && r[8] == lit[8] && lit[8] == '"');
    assert forall|t: int| 0 <= t < 16 implies s[q0 + 9 + t] == #[trigger] key[t] by {
        assert(s[q0 + 9 + t] == r[9 + t]);
        assert(r[9 + t] == lit[9 + t]);
    }
    assert(s.subrange(q0 + 9, q0 + 25) =~= key);
    assert(s[q0 + 25] == r[25] && r[25] == lit[25] && lit[25] == '"');
    assert(s[q0 + 26] == r[26] && r[26] == lit[26] && lit[26] == ':');
    assert(s[q0 + 27] == r[27] && r[27] == lit[27] && lit[27] == ' ');
    assert(s[q0 + 28] == r[28] && r[28] == quoted(v)[0] && quoted(v)[0] == '"');
    assert forall|t: int| 0 <= t < ea implies s[q0 + 29 + t] == #[trigger] esc(v)[t] by {
        assert(s[q0 + 29 + t] == r[29 + t]);
        assert(r[29 + t] == quoted(v)[1 + t]);
    }
    assert(s.subrange(q0 + 29, q0 + 29 + ea) =~= esc(v));
    assert(s[q0 + 29 + ea] == r[29 + ea] && r[29 + ea] == quoted(v)[1 + ea] && quoted(v)[1 + ea]
        == '"');
    lemma_opt_member_parse(s, q0 + 8, key, v);
}

proof fn lemma_opt_case_a(s: Seq<char>, p: int, a: Seq<char>)
    requires
        0 <= p,
        p + 35 + esc(a).len() <= s.len(),
        s.subrange(p, p + 35 + esc(a).len() as int) == wrap_opt_body(m_atl(a)),
    ensures
        parse_opt_obj(s, p) == Some(
            (
                OptView { auto_to_lower: Some(a), enable_i_like: None, identity_strategy: None },
                p + 35 + esc(a).len(),
            ),
        ),
{
    let r = wrap_opt_body(m_atl(a));
    let ea = esc(a).len() as int;
    let lm = 25 + ea;
    let tail = "\n      }"@;
    reveal_strlit("{\n");
    reveal_strlit("\n      }");
    reveal_strlit("        \"autoToLower\": ");
    reveal_strlit("\"");
    assert(m_atl(a).len() == lm);
    assert(r.len() == 10 + lm);
    assert forall|m: int| 0 <= m < 10 + lm implies s[p + m] == #[trigger] r[m] by {
        assert(s.subrange(p, p + 10 + lm)[m] == s[p + m]);
    }
    assert(s[p + 0] == r[0] && r[0] == '{');
    assert(s[p + 1] == r[1] && r[1] == '\n');
    assert forall|t: int| 0 <= t < lm implies s[p + 2 + t] == #[trigger] m_atl(a)[t] by {
        assert(s[p + 2 + t] == r[2 + t]);
        assert(r[2 + t] == m_atl(a)[t]);
    }
    assert(s.subrange(p + 2, p + 2 + lm) =~= m_atl(a));
    lemma_atl_region(s, p + 2, a);
    lemma_skip_ws_run(s, p + 1, p + 10);
    assert forall|t: int| 0 <= t < 8 implies s[p + 2 + lm + t] == #[trigger] tail[t] by {
        assert(s[p + 2 + lm + t] == r[2 + lm + t]);
        assert(r[2 + lm + t] == tail[t]);
    }
    assert forall|m: int| p + 2 + lm <= m < p + 9 + lm implies is_json_ws(#[trigger] s[m]) by {
        assert(s[m] == tail[m - p - 2 - lm]);
    }
    assert(s[p + 9 + lm] == tail[7] && tail[7] == '}');
    lemma_skip_ws_run(s, p + 2 + lm, p + 9 + lm);
    let acc0 = empty_opt_view();
    let acc1 = OptView { auto_to_lower: Some(a), enable_i_like: None, identity_strategy: None };
    assert(parse_opt_members(s, p + 10, acc0) == Some((acc1, p + 10 + lm)));
    assert(s[p + 10] != '}');
    assert(parse_opt_obj(s, p) == Some((acc1, p + 10 + lm)));
}

proof fn lemma_opt_case_e(s: Seq<char>, p: int, e: Seq<char>)
    requires
        0 <= p,
        p + 35 + esc(e).len() <= s.len(),
        s.subrange(p, p + 35 + esc(e).len() as int) == wrap_opt_body(m_eil(e)),
    ensures
        parse_opt_obj(s, p) == Some(
            (
                OptView { auto_to_lower: None, enable_i_like: Some(e), identity_strategy: None },
                p + 35 + esc(e).len(),
            ),
        ),
{
    let r = wrap_opt_body(m_eil(e));
    let ea = esc(e).len() as int;
    let lm = 25 + ea;
    let tail = "\n      }"@;
    reveal_strlit("{\n");
    reveal_strlit("\n      }");
    reveal_strlit("enableILike");
    reveal_strlit("autoToLower");
    reveal_strlit("        \"enableILike\": ");
    reveal_strlit("\"");
    assert(m_eil(e).len() == lm);
    assert(r.len() == 10 + lm);
    assert forall|m: int| 0 <= m < 10 + lm implies s[p + m] == #[trigger] r[m] by {
        assert(s.subrange(p, p + 10 + lm)[m] == s[p + m]);
    }
    assert(s[p + 0] == r[0] && r[0] == '{');
    assert(s[p + 1] == r[1] && r[1] == '\n');
    assert forall|t: int| 0 <= t < lm implies s[p + 2 + t] == #[trigger] m_eil(e)[t] by {
        assert(s[p + 2 + t] == r[2 + t]);
        assert(r[2 + t] == m_eil(e)[t]);
    }
    assert(s.subrange(p + 2, p + 2 + lm) =~= m_eil(e));
    lemma_eil_region(s, p + 2, e);
    lemma_skip_ws_run(s, p + 1, p + 10);
    assert forall|t: int| 0 <= t < 8 implies s[p + 2 + lm + t] == #[trigger] tail[t] by {
        assert(s[p + 2 + lm + t] == r[2 + lm + t]);
        assert(r[2 + lm + t] == tail[t]);
    }
    assert forall|m: int| p + 2 + lm <= m < p + 9 + lm implies is_json_ws(#[trigger] s[m]) by {
        assert(s[m] == tail[m - p - 2 - lm]);
    }
    assert(s[p + 9 + lm] == tail[7] && tail[7] == '}');
    lemma_skip_ws_run(s, p + 2 + lm, p + 9 + lm);
    let acc0 = empty_opt_view();
    let acc1 = OptView { auto_to_lower: None, enable_i_like: Some(e), identity_strategy: None };
    assert(("enableILike"@)[0] == 'e' && ("autoToLower"@)[0] == 'a');
    assert("enableILike"@ != "autoToLower"@);
    assert(parse_opt_members(s, p + 10, acc0) == Some((acc1, p + 10 + lm)));
    assert(s[p + 10] != '}');
    assert(parse_opt_obj(s, p) == Some((acc1, p + 10 + lm)));
}

proof fn lemma_opt_case_i(s: Seq<char>, p: int, v: Seq<char>)
    requires
        0 <= p,
        p + 40 + esc(v).len() <= s.len(),
        s.subrange(p, p + 40 + esc(v).len() as int) == wrap_opt_body(m_ids(v)),
    ensures
        parse_opt_obj(s, p) == Some(
            (
                OptView { auto_to_lower: None, enable_i_like: None, identity_strategy: Some(v) },
                p + 40 + esc(v).len(),
            ),
        ),
{
    let r = wrap_opt_body(m_ids(v));
    let ea = esc(v).len() as int;
    let lm = 30 + ea;
    let tail = "\n      }"@;
    reveal_strlit("{\n");
    reveal_strlit("\n      }");
    reveal_strlit("identityStrategy");
    reveal_strlit("autoToLower");
    reveal_strlit("enableILike");
    reveal_strlit("        \"identityStrategy\": ");
    reveal_strlit("\"");
    assert(m_ids(v).len() == lm);
    assert(r.len() == 10 + lm);
    assert forall|m: int| 0 <= m < 10 + lm implies s[p + m] == #[trigger] r[m] by {
        assert(s.subrange(p, p + 10 + lm)[m] == s[p + m]);
    }
    assert(s[p + 0] == r[0] && r[0] == '{');
    assert(s[p + 1] == r[1] && r[1] == '\n');
    assert forall|t: int| 0 <= t < lm implies s[p + 2 + t] == #[trigger] m_ids(v)[t] by {
        assert(s[p + 2 + t] == r[2 + t]);
        assert(r[2 + t] == m_ids(v)[t]);
    }
    assert(s.subrange(p + 2, p + 2 + lm) =~= m_ids(v));
    lemma_ids_region(s, p + 2, v);
    lemma_skip_ws_run(s, p + 1, p + 10);
    assert forall|t: int| 0 <= t < 8 implies s[p + 2 + lm + t] == #[trigger] tail[t] by {
        assert(s[p + 2 + lm + t] == r[2 + lm + t]);
        assert(r[2 + lm + t] == tail[t]);
    }
    assert forall|m: int| p + 2 + lm <= m < p + 9 + lm implies is_json_ws(#[trigger] s[m]) by {
        assert(s[m] == tail[m - p - 2 - lm]);
    }
    assert(s[p + 9 + lm] == tail[7] && tail[7] == '}');
    lemma_skip_ws_run(s, p + 2 + lm, p + 9 + lm);
    let acc0 = empty_opt_view();
    let acc1 = OptView { auto_to_lower: None, enable_i_like: None, identity_strategy: Some(v) };
    assert(("identityStrategy"@).len() == 16 && ("autoToLower"@).len() == 11 && (
    "enableILike"@).len() == 11);
    assert("identityStrategy"@ != "autoToLower"@ && "identityStrategy"@ != "enableILike"@);
    assert(parse_opt_members(s, p + 10, acc0) == Some((acc1, p + 10 + lm)));
    assert(s[p + 10] != '}');
    assert(parse_opt_obj(s, p) == Some((acc1, p + 10 + lm)));
}

#[verifier::rlimit(100)]
proof fn lemma_opt_case_ae(s: Seq<char>, p: int, a: Seq<char>, e: Seq<char>)
    requires
        0 <= p,
        p + 62 + esc(a).len() + esc(e).len() <= s.len(),
        s.subrange(p, p + 62 + esc(a).len() + esc(e).len()) == wrap_opt_body(
            m_atl(a) + ",\n"@ + m_eil(e),
        ),
    ensures
        parse_opt_obj(s, p) == Some(
            (
                OptView {
                    auto_to_lower: Some(a),
                    enable_i_like: Some(e),
                    identity_strategy: None,
                },
                p + 62 + esc(a).len() + esc(e).len(),
            ),
        ),
{
    let ea = esc(a).len() as int;
    let ee = esc(e).len() as int;
    let la = 25 + ea;
    let le = 25 + ee;
    let b1 = m_atl(a) + ",\n"@;
    let body = b1 + m_eil(e);
    let r = wrap_opt_body(body);
    let tail = "\n      }"@;
    reveal_strlit("{\n");
    reveal_strlit("\n      }");
    reveal_strlit(",\n");
    reveal_strlit("\"");
    reveal_strlit("        \"autoToLower\": ");
    reveal_strlit("        \"enableILike\": ");
    reveal_strlit("autoToLower");
    reveal_strlit("enableILike");
    assert(m_atl(a).len() == la && m_eil(e).len() == le);
    assert(body.len() == 2 + la + le);
    assert(r.len() == 12 + la + le);
    assert forall|m: int| 0 <= m < 12 + la + le implies s[p + m] == #[trigger] r[m] by {
        assert(s.subrange(p, p + 12 + la + le)[m] == s[p + m]);
    }
    assert(s[p + 0] == r[0] && r[0] == '{');
    assert(s[p + 1] == r[1] && r[1] == '\n');
    assert forall|t: int| 0 <= t < la implies s[p + 2 + t] == #[trigger] m_atl(a)[t] by {
        assert(s[p + 2 + t] == r[2 + t]);
        assert(r[2 + t] == body[t]);
        assert(body[t] == b1[t]);
        assert(b1[t] == m_atl(a)[t]);
    }
    assert(s.subrange(p + 2, p + 2 + la) =~= m_atl(a));
    lemma_atl_region(s, p + 2, a);
    lemma_skip_ws_run(s, p + 1, p + 10);
    assert(s[p + 2 + la] == r[2 + la] && r[2 + la] == body[la] && body[la] == b1[la] && b1[la]
        == (",\n"@)[0]);
    assert(s[p + 3 + la] == r[3 + la] && r[3 + la] == body[1 + la] && body[1 + la] == b1[1 + la]
        && b1[1 + la] == (",\n"@)[1]);
    assert(s[p + 2 + la] == ',' && s[p + 3 + la] == '\n');
    assert forall|t: int| 0 <= t < le implies s[p + 4 + la + t] == #[trigger] m_eil(e)[t] by {
        assert(s[p + 4 + la + t] == r[4 + la + t]);
        assert(r[4 + la + t] == body[2 + la + t]);
        assert(body[2 + la + t] == m_eil(e)[t]);
    }
    assert(s.subrange(p + 4 + la, p + 4 + la + le) =~= m_eil(e));
    lemma_eil_region(s, p + 4 + la, e);
    lemma_skip_ws_run(s, p + 3 + la, p + 12 + la);
    assert forall|t: int| 0 <= t < 8 implies s[p + 4 + la + le + t] == #[trigger] tail[t] by {
        assert(s[p + 4 + la + le + t] == r[4 + la + le + t]);
        assert(r[4 + la + le + t] == tail[t]);
    }
    assert forall|m: int| p + 4 + la + le <= m < p + 11 + la + le implies is_json_ws(
        #[trigger] s[m],
    ) by {
        assert(s[m] == tail[m - p - 4 - la - le]);
    }
    assert(s[p + 11 + la + le] == tail[7] && tail[7] == '}');
    lemma_skip_ws_run(s, p + 4 + la + le, p + 11 + la + le);
    assert(("enableILike"@)[0] == 'e' && ("autoToLower"@)[0] == 'a');
    assert("enableILike"@ != "autoToLower"@);
    let acc0 = empty_opt_view();
    let acc1 = OptView { auto_to_lower: Some(a), enable_i_like: None, identity_strategy: None };
    let acc2 = OptView { auto_to_lower: Some(a), enable_i_like: Some(e), identity_strategy: None };
    assert(skip_ws(s, p + 2 + la) == p + 2 + la);
    assert(parse_opt_members(s, p + 12 + la, acc1) == Some((acc2, p + 12 + la + le)));
    assert(parse_opt_members(s, p + 10, acc0) == parse_opt_members(s, p + 12 + la, acc1));
    assert(s[p + 10] != '}');
    assert(parse_opt_obj(s, p) == Some((acc2, p + 12 + la + le)));
}

#[verifier::rlimit(100)]
proof fn lemma_opt_case_ai(s: Seq<char>, p: int, a: Seq<char>, v: Seq<char>)
    requires
        0 <= p,
        p + 67 + esc(a).len() + esc(v).len() <= s.len(),
        s.subrange(p, p + 67 + esc(a).len() + esc(v).len()) == wrap_opt_body(
            m_atl(a) + ",\n"@ + m_ids(v),
        ),
    ensures
        parse_opt_obj(s, p) == Some(
            (
                OptView {
                    auto_to_lower: Some(a),
                    enable_i_like: None,
                    identity_strategy: Some(v),
                },
                p + 67 + esc(a).len() + esc(v).len(),
            ),
        ),
{
    let ea = esc(a).len() as int;
    let ei = esc(v).len() as int;
    let la = 25 + ea;
    let li = 30 + ei;
    let b1 = m_atl(a) + ",\n"@;
    let body = b1 + m_ids(v);
    let r = wrap_opt_body(body);
    let tail = "\n      }"@;
    reveal_strlit("{\n");
    reveal_strlit("\n      }");
    reveal_strlit(",\n");
    reveal_strlit("\"");
    reveal_strlit("        \"autoToLower\": ");
    reveal_strlit("        \"identityStrategy\": ");
    reveal_strlit("autoToLower");
    reveal_strlit("enableILike");
    reveal_strlit("identityStrategy");
    assert(m_atl(a).len() == la && m_ids(v).len() == li);
    assert(body.len() == 2 + la + li);
    assert(r.len() == 12 + la + li);
    assert forall|m: int| 0 <= m < 12 + la + li implies s[p + m] == #[trigger] r[m] by {
        assert(s.subrange(p, p + 12 + la + li)[m] == s[p + m]);
    }
    assert(s[p + 0] == r[0] && r[0] == '{');
    assert(s[p + 1] == r[1] && r[1] == '\n');
    assert forall|t: int| 0 <= t < la implies s[p + 2 + t] == #[trigger] m_atl(a)[t] by {
        assert(s[p + 2 + t] == r[2 + t]);
        assert(r[2 + t] == body[t]);
        assert(body[t] == b1[t]);
        assert(b1[t] == m_atl(a)[t]);
    }
    assert(s.subrange(p + 2, p + 2 + la) =~= m_atl(a));
    lemma_atl_region(s, p + 2, a);
    lemma_skip_ws_run(s, p + 1, p + 10);
    assert(s[p + 2 + la] == r[2 + la] && r[2 + la] == body[la] && body[la] == b1[la] && b1[la]
        == (",\n"@)[0]);
    assert(s[p + 3 + la] == r[3 + la] && r[3 + la] == body[1 + la] && body[1 + la] == b1[1 + la]
        && b1[1 + la] == (",\n"@)[1]);
    assert(s[p + 2 + la] == ',' && s[p + 3 + la] == '\n');
    assert forall|t: int| 0 <= t < li implies s[p + 4 + la + t] == #[trigger] m_ids(v)[t] by {
        assert(s[p + 4 + la + t] == r[4 + la + t]);
        assert(r[4 + la + t] == body[2 + la + t]);
        assert(body[2 + la + t] == m_ids(v)[t]);
    }
    assert(s.subrange(p + 4 + la, p + 4 + la + li) =~= m_ids(v));
    lemma_ids_region(s, p + 4 + la, v);
    lemma_skip_ws_run(s, p + 3 + la, p + 12 + la);
    assert forall|t: int| 0 <= t < 8 implies s[p + 4 + la + li + t] == #[trigger] tail[t] by {
        assert(s[p + 4 + la + li + t] == r[4 + la + li + t]);
        assert(r[4 + la + li + t] == tail[t]);
    }
    assert forall|m: int| p + 4 + la + li <= m < p + 11 + la + li implies is_json_ws(
        #[trigger] s[m],
    ) by {
        assert(s[m] == tail[m - p - 4 - la - li]);
    }
    assert(s[p + 11 + la + li] == tail[7] && tail[7] == '}');
    lemma_skip_ws_run(s, p + 4 + la + li, p + 11 + la + li);
    assert(("identityStrategy"@).len() == 16 && ("autoToLower"@).len() == 11 && (
    "enableILike"@).len() == 11);
    assert("identityStrategy"@ != "autoToLower"@ && "identityStrategy"@ != "enableILike"@);
    let acc0 = empty_opt_view();
    let acc1 = OptView { auto_to_lower: Some(a), enable_i_like: None, identity_strategy: None };
    let acc2 = OptView { auto_to_lower: Some(a), enable_i_like: None, identity_strategy: Some(v) };
    assert(skip_ws(s, p + 2 + la) == p + 2 + la);
    assert(parse_opt_members(s, p + 12 + la, acc1) == Some((acc2, p + 12 + la + li)));
    assert(parse_opt_members(s, p + 10, acc0) == parse_opt_members(s, p + 12 + la, acc1));
    assert(s[p + 10] != '}');
    assert(parse_opt_obj(s, p) == Some((acc2, p + 12 + la + li)));
}

#[verifier::rlimit(100)]
proof fn lemma_opt_case_ei(s: Seq<char>, p: int, e: Seq<char>, v: Seq<char>)
    requires
        0 <= p,
        p + 67 + esc(e).len() + esc(v).len() <= s.len(),
        s.subrange(p, p + 67 + esc(e).len() + esc(v).len()) == wrap_opt_body(
            m_eil(e) + ",\n"@ + m_ids(v),
        ),
    ensures
        parse_opt_obj(s, p) == Some(
            (
                OptView {
                    auto_to_lower: None,
                    enable_i_like: Some(e),
                    identity_strategy: Some(v),
                },
                p + 67 + esc(e).len() + esc(v).len(),
            ),
        ),
{
    let ee = esc(e).len() as int;
    let ei = esc(v).len() as int;
    let le = 25 + ee;
    let li = 30 + ei;
    let b1 = m_eil(e) + ",\n"@;
    let body = b1 + m_ids(v);
    let r = wrap_opt_body(body);
    let tail = "\n      }"@;
    reveal_strlit("{\n");
    reveal_strlit("\n      }");
    reveal_strlit(",\n");
    reveal_strlit("\"");
    reveal_strlit("        \"enableILike\": ");
    reveal_strlit("        \"identityStrategy\": ");
    reveal_strlit("autoToLower");
    reveal_strlit("enableILike");
    reveal_strlit("identityStrategy");
    assert(m_eil(e).len() == le && m_ids(v).len() == li);
    assert(body.len() == 2 + le + li);
    assert(r.len() == 12 + le + li);
    assert forall|m: int| 0 <= m < 12 + le + li implies s[p + m] == #[trigger] r[m] by {
        assert(s.subrange(p, p + 12 + le + li)[m] == s[p + m]);
    }
    assert(s[p + 0] == r[0] && r[0] == '{');
    assert(s[p + 1] == r[1] && r[1] == '\n');
    assert forall|t: int| 0 <= t < le implies s[p + 2 + t] == #[trigger] m_eil(e)[t] by {
        assert(s[p + 2 + t] == r[2 + t]);
        assert(r[2 + t] == body[t]);
        assert(body[t] == b1[t]);
        assert(b1[t] == m_eil(e)[t]);
    }
    assert(s.subrange(p + 2, p + 2 + le) =~= m_eil(e));
    lemma_eil_region(s, p + 2, e);
    lemma_skip_ws_run(s, p + 1, p + 10);
    assert(s[p + 2 + le] == r[2 + le] && r[2 + le] == body[le] && body[le] == b1[le] && b1[le]
        == (",\n"@)[0]);
    assert(s[p + 3 + le] == r[3 + le] && r[3 + le] == body[1 + le] && body[1 + le] == b1[1 + le]
        && b1[1 + le] == (",\n"@)[1]);
    assert(s[p + 2 + le] == ',' && s[p + 3 + le] == '\n');
    assert forall|t: int| 0 <= t < li implies s[p + 4 + le + t] == #[trigger] m_ids(v)[t] by {
        assert(s[p + 4 + le + t] == r[4 + le + t]);
        assert(r[4 + le + t] == body[2 + le + t]);
        assert(body[2 + le + t] == m_ids(v)[t]);
    }
    assert(s.subrange(p + 4 + le, p + 4 + le + li) =~= m_ids(v));
    lemma_ids_region(s, p + 4 + le, v);
    lemma_skip_ws_run(s, p + 3 + le, p + 12 + le);
    assert forall|t: int| 0 <= t < 8 implies s[p + 4 + le + li + t] == #[trigger] tail[t] by {
        assert(s[p + 4 + le + li + t] == r[4 + le + li + t]);
        assert(r[4 + le + li + t] == tail[t]);
    }
    assert forall|m: int| p + 4 + le + li <= m < p + 11 + le + li implies is_json_ws(
        #[trigger] s[m],
    ) by {
        assert(s[m] == tail[m - p - 4 - le - li]);
    }
    assert(s[p + 11 + le + li] == tail[7] && tail[7] == '}');
    lemma_skip_ws_run(s, p + 4 + le + li, p + 11 + le + li);
    assert(("enableILike"@)[0] == 'e' && ("autoToLower"@)[0] == 'a');
    assert("enableILike"@ != "autoToLower"@);
    assert(("identityStrategy"@).len() == 16 && ("autoToLower"@).len() == 11 && (
    "enableILike"@).len() == 11);
    assert("identityStrategy"@ != "autoToLower"@ && "identityStrategy"@ != "enableILike"@);
    let acc0 = empty_opt_view();
    let acc1 = OptView { auto_to_lower: None, enable_i_like: Some(e), identity_strategy: None };
    let acc2 = OptView { auto_to_lower: None, enable_i_like: Some(e), identity_strategy: Some(v) };
    assert(skip_ws(s, p + 2 + le) == p + 2 + le);
    assert(parse_opt_members(s, p + 12 + le, acc1) == Some((acc2, p + 12 + le + li)));
    assert(parse_opt_members(s, p + 10, acc0) == parse_opt_members(s, p + 12 + le, acc1));
    assert(s[p + 10] != '}');
    assert(parse_opt_obj(s, p) == Some((acc2, p + 12 + le + li)));
}

#[verifier::rlimit(100)]
proof fn lemma_opt_case_aei(s: Seq<char>, p: int, a: Seq<char>, e: Seq<char>, v: Seq<char>)
    requires
        0 <= p,
        p + 94 + esc(a).len() + esc(e).len() + esc(v).len() <= s.len(),
        s.subrange(p, p + 94 + esc(a).len() + esc(e).len() + esc(v).len()) == wrap_opt_body(
            m_atl(a) + ",\n"@ + m_eil(e) + ",\n"@ + m_ids(v),
        ),
    ensures
        parse_opt_obj(s, p) == Some(
            (
                OptView {
                    auto_to_lower: Some(a),
                    enable_i_like: Some(e),
                    identity_strategy: Some(v),
                },
                p + 94 + esc(a).len() + esc(e).len() + esc(v).len(),
            ),
        ),
{
    let ea = esc(a).len() as int;
    let ee = esc(e).len() as int;
    let ei = esc(v).len() as int;
    let la = 25 + ea;
    let le = 25 + ee;
    let li = 30 + ei;
    let b1 = m_atl(a) + ",\n"@;
    let b2 = b1 + m_eil(e);
    let b3 = b2 + ",\n"@;
    let body = b3 + m_ids(v);
    let r = wrap_opt_body(body);
    let tail = "\n      }"@;
    reveal_strlit("{\n");
    reveal_strlit("\n      }");
    reveal_strlit(",\n");
    reveal_strlit("\"");
    reveal_strlit("        \"autoToLower\": ");
    reveal_strlit("        \"enableILike\": ");
    reveal_strlit("        \"identityStrategy\": ");
    reveal_strlit("autoToLower");
    reveal_strlit("enableILike");
    reveal_strlit("identityStrategy");
    assert(m_atl(a).len() == la && m_eil(e).len() == le && m_ids(v).len() == li);
    assert(body.len() == 4 + la + le + li);
    assert(r.len() == 14 + la + le + li);
    assert forall|m: int| 0 <= m < 14 + la + le + li implies s[p + m] == #[trigger] r[m] by {
        assert(s.subrange(p, p + 14 + la + le + li)[m] == s[p + m]);
    }
    assert(s[p + 0] == r[0] && r[0] == '{');
    assert(s[p + 1] == r[1] && r[1] == '\n');
    assert forall|t: int| 0 <= t < la implies s[p + 2 + t] == #[trigger] m_atl(a)[t] by {
        assert(s[p + 2 + t] == r[2 + t]);
        assert(r[2 + t] == body[t]);
        assert(body[t] == b3[t]);
        assert(b3[t] == b2[t]);
        assert(b2[t] == b1[t]);
        assert(b1[t] == m_atl(a)[t]);
    }
    assert(s.subrange(p + 2, p + 2 + la) =~= m_atl(a));
    lemma_atl_region(s, p + 2, a);
    lemma_skip_ws_run(s, p + 1, p + 10);
    assert(s[p + 2 + la] == r[2 + la] && r[2 + la] == body[la] && body[la] == b3[la] && b3[la]
        == b2[la] && b2[la] == b1[la] && b1[la] == (",\n"@)[0]);
    assert(s[p + 3 + la] == r[3 + la] && r[3 + la] == body[1 + la] && body[1 + la] == b3[1 + la]
        && b3[1 + la] == b2[1 + la] && b2[1 + la] == b1[1 + la] && b1[1 + la] == (",\n"@)[1]);
    assert(s[p + 2 + la] == ',' && s[p + 3 + la] == '\n');
    assert forall|t: int| 0 <= t < le implies s[p + 4 + la + t] == #[trigger] m_eil(e)[t] by {
        assert(s[p + 4 + la + t] == r[4 + la + t]);
        assert(r[4 + la + t] == body[2 + la + t]);
        assert(body[2 + la + t] == b3[2 + la + t]);
        assert(b3[2 + la + t] == b2[2 + la + t]);
        assert(b2[2 + la + t] == m_eil(e)[t]);
    }
    assert(s.subrange(p + 4 + la, p + 4 + la + le) =~= m_eil(e));
    lemma_eil_region(s, p + 4 + la, e);
    lemma_skip_ws_run(s, p + 3 + la, p + 12 + la);
    assert(s[p + 4 + la + le] == r[4 + la + le] && r[4 + la + le] == body[2 + la + le] && body[2
        + la + le] == b3[2 + la + le] && b3[2 + la + le] == (",\n"@)[0]);
    assert(s[p + 5 + la + le] == r[5 + la + le] && r[5 + la + le] == body[3 + la + le] && body[3
        + la + le] == b3[3 + la + le] && b3[3 + la + le] == (",\n"@)[1]);
    assert(s[p + 4 + la + le] == ',' && s[p + 5 + la + le] == '\n');
    assert forall|t: int| 0 <= t < li implies s[p + 6 + la + le + t] == #[trigger] m_ids(v)[t] by {
        assert(s[p + 6 + la + le + t] == r[6 + la + le + t]);
        assert(r[6 + la + le + t] == body[4 + la + le + t]);
        assert(body[4 + la + le + t] == m_ids(v)[t]);
    }
    assert(s.subrange(p + 6 + la + le, p + 6 + la + le + li) =~= m_ids(v));
    lemma_ids_region(s, p + 6 + la + le, v);
    lemma_skip_ws_run(s, p + 5 + la + le, p + 14 + la + le);
    assert forall|t: int| 0 <= t < 8 implies s[p + 6 + la + le + li + t] == #[trigger] tail[t] by {
        assert(s[p + 6 + la + le + li + t] == r[6 + la + le + li + t]);
        assert(r[6 + la + le + li + t] == tail[t]);
    }
    assert forall|m: int| p + 6 + la + le + li <= m < p + 13 + la + le + li implies is_json_ws(
        #[trigger] s[m],
    ) by {
        assert(s[m] == tail[m - p - 6 - la - le - li]);
    }
    assert(s[p + 13 + la + le + li] == tail[7] && tail[7] == '}');
    lemma_skip_ws_run(s, p + 6 + la + le + li, p + 13 + la + le + li);
    assert(("enableILike"@)[0] == 'e' && ("autoToLower"@)[0] == 'a');
    assert("enableILike"@ != "autoToLower"@);
    assert(("identityStrategy"@).len() == 16 && ("autoToLower"@).len() == 11 && (
    "enableILike"@).len() == 11);
    assert("identityStrategy"@ != "autoToLower"@ && "identityStrategy"@ != "enableILike"@);
    let acc0 = empty_opt_view();
    let acc1 = OptView { auto_to_lower: Some(a), enable_i_like: None, identity_strategy: None };
    let acc2 = OptView { auto_to_lower: Some(a), enable_i_like: Some(e), identity_strategy: None };
    let acc3 = OptView {
        auto_to_lower: Some(a),
        enable_i_like: Some(e),
        identity_strategy: Some(v),
    };
    assert(skip_ws(s, p + 2 + la) == p + 2 + la);
    assert(skip_ws(s, p + 4 + la + le) == p + 4 + la + le);
    assert(parse_opt_members(s, p + 14 + la + le, acc2) == Some(
        (acc3, p + 14 + la + le + li),
    ));
    assert(parse_opt_members(s, p + 12 + la, acc1) == parse_opt_members(
        s,
        p + 14 + la + le,
        acc2,
    ));
    assert(parse_opt_members(s, p + 10, acc0) == parse_opt_members(s, p + 12 + la, acc1));
    assert(s[p + 10] != '}');
    assert(parse_opt_obj(s, p) == Some((acc3, p + 14 + la + le + li)));
}

/// The round trip of the optimization-settings object: wherever the written
/// form of a settings value stands in a text, the parser reads back exactly
/// that value and stops at the end of the written form.
pub proof fn lemma_opt_settings_round_trip(s: Seq<char>, p: int, o: OptView)
    requires
        0 <= p,
        p + enc_opt(o).len() <= s.len(),
        s.subrange(p, p + enc_opt(o).len() as int) == enc_opt(o),
    ensures
        parse_opt_obj(s, p) == Some((o, p + enc_opt(o).len() as int)),
{
    reveal_strlit("{}");
    reveal_strlit("{\n");
    reveal_strlit("\n      }");
    reveal_strlit(",\n");
    reveal_strlit("\"");
    reveal_strlit("        \"autoToLower\": ");
    reveal_strlit("        \"enableILike\": ");
    reveal_strlit("        \"identityStrategy\": ");
    match (o.auto_to_lower, o.enable_i_like, o.identity_strategy) {
        (Option::None, Option::None, Option::None) => {
            assert(enc_opt(o).len() == 2);
            assert(s.subrange(p, p + 2)[0] == s[p + 0]);
            assert(s.subrange(p, p + 2)[1] == s[p + 1]);
            assert(s[p] == '{' && s[p + 1] == '}');
            assert(!is_json_ws(s[p + 1]));
            assert(skip_ws(s, p + 1) == p + 1);
            assert(o == empty_opt_view());
            assert(parse_opt_obj(s, p) == Some((empty_opt_view(), p + 2)));
        },
        (Option::Some(a), Option::None, Option::None) => {
            assert(enc_opt(o).len() == 35 + esc(a).len());
            lemma_opt_case_a(s, p, a);
        },
        (Option::None, Option::Some(e), Option::None) => {
            assert(enc_opt(o).len() == 35 + esc(e).len());
            lemma_opt_case_e(s, p, e);
        },
        (Option::None, Option::None, Option::Some(v)) => {
            assert(enc_opt(o).len() == 40 + esc(v).len());
            lemma_opt_case_i(s, p, v);
        },
        (Option::Some(a), Option::Some(e), Option::None) => {
            assert(enc_opt(o).len() == 62 + esc(a).len() + esc(e).len());
            lemma_opt_case_ae(s, p, a, e);
        },
        (Option::Some(a), Option::None, Option::Some(v)) => {
            assert(enc_opt(o).len() == 67 + esc(a).len() + esc(v).len());
            lemma_opt_case_ai(s, p, a, v);
        },
        (Option::None, Option::Some(e), Option::Some(v)) => {
            assert(enc_opt(o).len() == 67 + esc(e).len() + esc(v).len());
            lemma_opt_case_ei(s, p, e, v);
        },
        (Option::Some(a), Option::Some(e), Option::Some(v)) => {
            assert(enc_opt(o).len() == 94 + esc(a).len() + esc(e).len() + esc(v).len());
            lemma_opt_case_aei(s, p, a, e, v);
        },
    }
}

} // verus!

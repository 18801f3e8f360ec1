//! The JSON file form of the collection, and the file-backed storage type.
//!
//! The collection is persisted as one pretty-printed JSON object mapping
//! each name to an object with the content and the creation timestamp.
//! Rendering and parsing are the library's own; parsing accepts exactly
//! the rendered form, and the round trip is proved to restore the
//! collection's map.

use vstd::prelude::*;
use vstd::map::*;
use crate::store::{Entry, Snippet, SnippetMap, SnippetView, map_of_entries};
use crate::timestamp::{fmt_rfc3339, parse_rfc3339_spec, render_rfc3339, parse_rfc3339,
    lemma_parse_of_fmt, lemma_fmt_of_parse, lemma_fmt_plain};
use crate::chars::{chars_of, string_from_chars, plain_char, all_plain, hex_char, is_hex, hex_val,
    hex_to_char, char_to_hex};
use crate::error::StoreError;

verus! {

/// How one character stands inside a JSON string literal: quote and
/// backslash escaped, control characters in `\u00..` form, all else as is.
pub open spec fn esc_char(c: char) -> Seq<char> {
    if c == '"' {
        seq!['\\', '"']
    } else if c == '\\' {
        seq!['\\', '\\']
    } else if (c as u32) < 32 {
        seq!['\\', 'u', '0', '0', hex_char(((c as u32) / 16) as int), hex_char(
            ((c as u32) % 16) as int,
        )]
    } else {
        seq![c]
    }
}

/// A whole string, character by character.
pub open spec fn esc(s: Seq<char>) -> Seq<char>
    decreases s.len(),
{
    if s.len() == 0 {
        Seq::empty()
    } else {
        esc_char(s[0]) + esc(s.drop_first())
    }
}

proof fn lemma_esc_append(a: Seq<char>, b: Seq<char>)
    ensures
        esc(a + b) == esc(a) + esc(b),
    decreases a.len(),
{
    if a.len() == 0 {
        assert(a + b =~= b);
        assert(esc(a) + esc(b) =~= esc(b));
    } else {
        assert((a + b).drop_first() =~= a.drop_first() + b);
        lemma_esc_append(a.drop_first(), b);
        assert((a + b)[0] == a[0]);
        assert(esc(a + b) =~= esc(a) + esc(b));
    }
}

proof fn lemma_esc_one(c: char)
    ensures
        esc(seq![c]) == esc_char(c),
{
    assert(seq![c].len() == 1);
    assert(seq![c][0] == c);
    assert(seq![c].drop_first() =~= Seq::<char>::empty());
    assert(esc(Seq::<char>::empty()) =~= Seq::<char>::empty());
    assert(esc(seq![c]) =~= esc_char(c));
}

/// An escape-free string stands for itself.
proof fn lemma_esc_plain(s: Seq<char>)
    requires
        all_plain(s),
    ensures
        esc(s) == s,
    decreases s.len(),
{
    if s.len() > 0 {
        assert(plain_char(s[0]));
        assert(esc_char(s[0]) =~= seq![s[0]]);
        assert forall|i: int| 0 <= i < s.drop_first().len() implies plain_char(
            #[trigger] s.drop_first()[i],
        ) by {
            assert(s.drop_first()[i] == s[i + 1]);
        }
        lemma_esc_plain(s.drop_first());
        assert(esc(s) =~= s);
    }
}

/// The text of one entry inside the object.
pub open spec fn json_entry_text(e: Entry) -> Seq<char> {
    "  \""@ + esc(e.name@) + "\": {\n    \"content\": \""@ + esc(e.snippet.content@)
        + "\",\n    \"created_at\": \""@ + fmt_rfc3339(e.snippet.created_at) + "\"\n  }"@
}

/// The text of the entries from `idx` on, each followed by `,` except the
/// last, one per line group.
pub open spec fn json_entries_text(s: Seq<Entry>, idx: int) -> Seq<char>
    decreases s.len() - idx,
{
    if idx < 0 || idx >= s.len() {
        Seq::empty()
    } else {
        json_entry_text(s[idx]) + (if idx == s.len() - 1 {
            "\n"@
        } else {
            ",\n"@
        }) + json_entries_text(s, idx + 1)
    }
}

/// The whole persisted text of a collection.
pub open spec fn json_text(m: SnippetMap) -> Seq<char> {
    if m.entries@.len() == 0 {
        "{}"@
    } else {
        "{\n"@ + json_entries_text(m.entries@, 0) + "}"@
    }
}

/// Renders the collection as its JSON text.
pub fn render_json(m: &SnippetMap) -> (r: String)
    requires
        m.wf(),
    ensures
        r@ == json_text(*m),
{
    let n = m.entries.len();
    if n == 0 {
        return String::from_str("{}");
    }
    let mut out = String::from_str("{\n");
    let mut i: usize = 0;
    while i < n
        invariant
            m.wf(),
            n == m.entries@.len(),
            n > 0,
            i <= n,
            out@ + json_entries_text(m.entries@, i as int) == "{\n"@ + json_entries_text(
                m.entries@,
                0,
            ),
        decreases n - i,
    {
        let ghost out0 = out@;
        let e = &m.entries[i];
        out.append("  \"");
        let nv = chars_of(e.name.as_str());
        let ne = esc_exec(&nv);
        let ns = string_from_chars(&ne);
        out.append(ns.as_str());
        out.append("\": {\n    \"content\": \"");
        let cv = chars_of(e.snippet.content.as_str());
        let ce = esc_exec(&cv);
        let cs = string_from_chars(&ce);
        out.append(cs.as_str());
        out.append("\",\n    \"created_at\": \"");
        let tv = render_rfc3339(&e.snippet.created_at);
        let ts = string_from_chars(&tv);
        out.append(ts.as_str());
        out.append("\"\n  }");
        if i + 1 == n {
            out.append("\n");
            proof {
                assert(out@ =~= out0 + json_entry_text(m.entries@[i as int]) + "\n"@);
            }
        } else {
            out.append(",\n");
            proof {
                assert(out@ =~= out0 + json_entry_text(m.entries@[i as int]) + ",\n"@);
            }
        }
        i = i + 1;
        proof {
            assert(out@ + json_entries_text(m.entries@, i as int) =~= "{\n"@ + json_entries_text(
                m.entries@,
                0,
            ));
        }
    }
    out.append("}");
    proof {
        assert(json_entries_text(m.entries@, n as int) =~= Seq::<char>::empty());
        assert(out@ =~= json_text(*m));
    }
    out
}

/// Escapes a string for a JSON literal.
fn esc_exec(v: &Vec<char>) -> (r: Vec<char>)
    ensures
        r@ == esc(v@),
{
    let n = v.len();
    let mut r: Vec<char> = Vec::new();
    let mut i: usize = 0;
    while i < n
        invariant
            n == v@.len(),
            i <= n,
            r@ == esc(v@.take(i as int)),
        decreases n - i,
    {
        let ghost r0 = r@;
        let c = v[i];
        if c == '"' {
            r.push('\\');
            r.push('"');
        } else if c == '\\' {
            r.push('\\');
            r.push('\\');
        } else if (c as u32) < 32 {
            let u: u32 = c as u32;
            r.push('\\');
            r.push('u');
            r.push('0');
            r.push('0');
            r.push(hex_to_char(u / 16));
            r.push(hex_to_char(u % 16));
        } else {
            r.push(c);
        }
        proof {
            assert(r@ =~= r0 + esc_char(v@[i as int]));
            lemma_esc_append(v@.take(i as int), seq![v@[i as int]]);
            lemma_esc_one(v@[i as int]);
            assert(v@.take(i + 1) =~= v@.take(i as int) + seq![v@[i as int]]);
        }
        i = i + 1;
    }
    proof {
        assert(v@.take(n as int) =~= v@);
    }
    r
}

/// A fixed piece of text standing at a position.
pub open spec fn take_lit(v: Seq<char>, i: int, lit: Seq<char>) -> Option<int> {
    if 0 <= i && i + lit.len() <= v.len() && v.subrange(i, i + lit.len()) == lit {
        Some(i + lit.len())
    } else {
        None
    }
}

/// A string literal's body from `i` to past its closing quote: the decoded
/// characters and the position after the quote.
#[verifier::opaque]
pub open spec fn parse_str_body(v: Seq<char>, i: int) -> Option<(Seq<char>, int)>
    decreases v.len() - i,
{
    if i < 0 || i >= v.len() {
        None
    } else if v[i] == '"' {
        Some((Seq::empty(), i + 1))
    } else if v[i] == '\\' {
        if i + 1 < v.len() && (v[i + 1] == '"' || v[i + 1] == '\\') {
            match parse_str_body(v, i + 2) {
                Some(r) => Some((seq![v[i + 1]] + r.0, r.1)),
                None => None,
            }
        } else if i + 5 < v.len() && v[i + 1] == 'u' && v[i + 2] == '0' && v[i + 3] == '0' && (v[i
            + 4] == '0' || v[i + 4] == '1') && is_hex(v[i + 5]) {
            match parse_str_body(v, i + 6) {
                Some(r) => Some(
                    (seq![(((hex_val(v[i + 4]) * 16 + hex_val(v[i + 5])) as u32) as char)] + r.0, r.1),
                ),
                None => None,
            }
        } else {
            None
        }
    } else if (v[i] as u32) < 32 {
        None
    } else {
        match parse_str_body(v, i + 1) {
            Some(r) => Some((seq![v[i]] + r.0, r.1)),
            None => None,
        }
    }
}

proof fn lemma_parse_str_bounds(v: Seq<char>, i: int)
    requires
        parse_str_body(v, i) is Some,
    ensures
        i < parse_str_body(v, i)->Some_0.1 <= v.len(),
    decreases v.len() - i,
{
    reveal(parse_str_body);
    if v[i] == '"' {
    } else if v[i] == '\\' {
        if i + 1 < v.len() && (v[i + 1] == '"' || v[i + 1] == '\\') {
            lemma_parse_str_bounds(v, i + 2);
        } else {
            lemma_parse_str_bounds(v, i + 6);
        }
    } else {
        lemma_parse_str_bounds(v, i + 1);
    }
}

/// One entry of the object: its name, its snippet value, and the position
/// after the entry's closing brace.
#[verifier::opaque]
pub open spec fn parse_entry(v: Seq<char>, i: int) -> Option<((Seq<char>, SnippetView), int)> {
    match take_lit(v, i, "  \""@) {
        Some(i1) => match parse_str_body(v, i1) {
            Some(name_r) => match take_lit(v, name_r.1, ": {\n    \"content\": \""@) {
                Some(i3) => match parse_str_body(v, i3) {
                    Some(content_r) => match take_lit(v, content_r.1, ",\n    \"created_at\": \""@) {
                        Some(i5) => match parse_str_body(v, i5) {
                            Some(ts_r) => match parse_rfc3339_spec(ts_r.0) {
                                Some(ts) => match take_lit(v, ts_r.1, "\n  }"@) {
                                    Some(i7) => Some(
                                        (
                                            (
                                                name_r.0,
                                                SnippetView { content: content_r.0, created_at: ts },
                                            ),
                                            i7,
                                        ),
                                    ),
                                    None => None,
                                },
                                None => None,
                            },
                            None => None,
                        },
                        None => None,
                    },
                    None => None,
                },
                None => None,
            },
            None => None,
        },
        None => None,
    }
}

/// The entries from `i` on: one entry, then more after `,`, the list closed
/// by the final line break.
pub open spec fn parse_entries(v: Seq<char>, i: int) -> Option<(Seq<(Seq<char>, SnippetView)>, int)>
    decreases v.len() - i,
{
    match parse_entry(v, i) {
        Some(p) => if i < p.1 {
            match take_lit(v, p.1, ",\n"@) {
                Some(j2) => if p.1 < j2 && j2 <= v.len() {
                    match parse_entries(v, j2) {
                        Some(q) => Some((seq![p.0] + q.0, q.1)),
                        None => None,
                    }
                } else {
                    None
                },
                None => match take_lit(v, p.1, "\n"@) {
                    Some(j2) => Some((seq![p.0], j2)),
                    None => None,
                },
            }
        } else {
            None
        },
        None => None,
    }
}

/// The whole object: empty braces, or entries between `{` and `}` reaching
/// the end of the text.
pub open spec fn spec_parse_json(v: Seq<char>) -> Option<Seq<(Seq<char>, SnippetView)>> {
    if v == "{}"@ {
        Some(Seq::empty())
    } else {
        match take_lit(v, 0, "{\n"@) {
            Some(i1) => match parse_entries(v, i1) {
                Some(p) => if take_lit(v, p.1, "}"@) == Some(v.len() as int) {
                    Some(p.0)
                } else {
                    None
                },
                None => None,
            },
            None => None,
        }
    }
}

/// The map spelled by parsed pairs, later pairs winning.
pub open spec fn map_of_pairs(ps: Seq<(Seq<char>, SnippetView)>) -> Map<Seq<char>, SnippetView>
    decreases ps.len(),
{
    if ps.len() == 0 {
        Map::empty()
    } else {
        map_of_pairs(ps.drop_last()).insert(ps.last().0, ps.last().1)
    }
}

/// Reads a fixed piece of text at a position.
fn eat_lit(v: &Vec<char>, i: usize, lit: &str) -> (r: Option<usize>)
    requires
        i <= v@.len(),
    ensures
        match r {
            Some(j) => take_lit(v@, i as int, lit@) == Some(j as int) && i <= j <= v@.len(),
            None => take_lit(v@, i as int, lit@) is None,
        },
{
    let lv = chars_of(lit);
    let n = v.len();
    let k = lv.len();
    if n - i < k {
        return None;
    }
    let mut j: usize = 0;
    while j < k
        invariant
            lv@ == lit@,
            n == v@.len(),
            k == lv@.len(),
            i + k <= n,
            j <= k,
            forall|t: int| 0 <= t < j ==> v@[i + t] == lv@[t],
        decreases k - j,
    {
        if v[i + j] != lv[j] {
            proof {
                assert(v@.subrange(i as int, i + k) != lit@) by {
                    assert(v@.subrange(i as int, i + k)[j as int] == v@[i + j]);
                }
            }
            return None;
        }
        j = j + 1;
    }
    proof {
        assert(v@.subrange(i as int, i + k) =~= lit@);
    }
    Some(i + k)
}

/// Reads a string literal's body up to and past its closing quote.
fn parse_string_token(v: &Vec<char>, start: usize) -> (r: Option<(Vec<char>, usize)>)
    requires
        start <= v@.len(),
    ensures
        match r {
            Some(p) => parse_str_body(v@, start as int) == Some((p.0@, p.1 as int)) && start
                < p.1 <= v@.len(),
            None => parse_str_body(v@, start as int) is None,
        },
{
    proof {
        reveal(parse_str_body);
    }
    let n = v.len();
    let mut acc: Vec<char> = Vec::new();
    let mut cur: usize = start;
    loop
        invariant
            n == v@.len(),
            start <= cur <= n,
            (match parse_str_body(v@, cur as int) {
                Some(p) => parse_str_body(v@, start as int) == Some((acc@ + p.0, p.1)),
                None => parse_str_body(v@, start as int) is None,
            }),
        decreases n - cur,
    {
        if cur >= n {
            proof {
                reveal(parse_str_body);
                assert(parse_str_body(v@, cur as int) is None);
            }
            return None;
        }
        let ghost acc0 = acc@;
        let ghost c0 = cur as int;
        let c = v[cur];
        if c == '"' {
            proof {
                reveal(parse_str_body);
                assert(parse_str_body(v@, c0) == Some((Seq::<char>::empty(), c0 + 1)));
                assert(acc@ + Seq::<char>::empty() =~= acc@);
            }
            return Some((acc, cur + 1));
        } else if c == '\\' {
            if cur + 1 < n && (v[cur + 1] == '"' || v[cur + 1] == '\\') {
                acc.push(v[cur + 1]);
                cur = cur + 2;
                proof {
                    reveal(parse_str_body);
                    assert(acc@ =~= acc0 + seq![v@[c0 + 1]]);
                    match parse_str_body(v@, cur as int) {
                        Some(p) => {
                            assert(parse_str_body(v@, c0) == Some((seq![v@[c0 + 1]] + p.0, p.1)));
                            assert(acc0 + (seq![v@[c0 + 1]] + p.0) =~= acc@ + p.0);
                        },
                        None => {},
                    }
                }
            } else if n - cur > 5 && v[cur + 1] == 'u' && v[cur + 2] == '0' && v[cur + 3] == '0' && (
            v[cur + 4] == '0' || v[cur + 4] == '1') {
                match char_to_hex(v[cur + 5]) {
                    Some(h2) => {
                        let h1: u32 = if v[cur + 4] == '1' {
                            1
                        } else {
                            0
                        };
                        let u: u32 = h1 * 16 + h2;
                        let d = (u as u8) as char;
                        proof {
                            assert(h1 == hex_val(v@[c0 + 4]));
                            assert(d as u32 == u);
                            vstd::utf8::char_u32_cast(d, u);
                            assert((u as char) == d);
                        }
                        acc.push(d);
                        cur = cur + 6;
                        proof {
                            reveal(parse_str_body);
                            assert(acc@ =~= acc0 + seq![d]);
                            match parse_str_body(v@, cur as int) {
                                Some(p) => {
                                    assert(parse_str_body(v@, c0) == Some((seq![d] + p.0, p.1)));
                                    assert(acc0 + (seq![d] + p.0) =~= acc@ + p.0);
                                },
                                None => {},
                            }
                        }
                    },
                    None => {
                        proof {
                            reveal(parse_str_body);
                            assert(parse_str_body(v@, c0) is None);
                        }
                        return None;
                    },
                }
            } else {
                proof {
                    reveal(parse_str_body);
                    assert(parse_str_body(v@, c0) is None);
                }
                return None;
            }
        } else if (c as u32) < 32 {
            proof {
                reveal(parse_str_body);
                assert(parse_str_body(v@, c0) is None);
            }
            return None;
        } else {
            acc.push(c);
            cur = cur + 1;
            proof {
                reveal(parse_str_body);
                assert(acc@ =~= acc0 + seq![v@[c0]]);
                match parse_str_body(v@, cur as int) {
                    Some(p) => {
                        assert(parse_str_body(v@, c0) == Some((seq![v@[c0]] + p.0, p.1)));
                        assert(acc0 + (seq![v@[c0]] + p.0) =~= acc@ + p.0);
                    },
                    None => {},
                }
            }
        }
    }
}

/// Reads one entry of the object.
fn parse_entry_exec(v: &Vec<char>, i: usize) -> (r: Option<(String, Snippet, usize)>)
    requires
        i <= v@.len(),
    ensures
        match r {
            Some(p) => parse_entry(v@, i as int) == Some(((p.0@, p.1@), p.2 as int)) && p.1.wf()
                && i < p.2 <= v@.len(),
            None => parse_entry(v@, i as int) is None,
        },
{
    proof {
        reveal(parse_entry);
    }
    let i1 = match eat_lit(v, i, "  \"") {
        Some(j) => j,
        None => { return None },
    };
    let (namev, i2) = match parse_string_token(v, i1) {
        Some(p) => p,
        None => { return None },
    };
    let i3 = match eat_lit(v, i2, ": {\n    \"content\": \"") {
        Some(j) => j,
        None => { return None },
    };
    let (contentv, i4) = match parse_string_token(v, i3) {
        Some(p) => p,
        None => { return None },
    };
    let i5 = match eat_lit(v, i4, ",\n    \"created_at\": \"") {
        Some(j) => j,
        None => { return None },
    };
    let (tsv, i6) = match parse_string_token(v, i5) {
        Some(p) => p,
        None => { return None },
    };
    let ts = match parse_rfc3339(&tsv) {
        Some(t) => t,
        None => { return None },
    };
    let i7 = match eat_lit(v, i6, "\n  }") {
        Some(j) => j,
        None => { return None },
    };
    proof {
        lemma_fmt_of_parse(tsv@);
    }
    Some(
        (
            string_from_chars(&namev),
            Snippet { content: string_from_chars(&contentv), created_at: ts },
            i7,
        ),
    )
}

/// Parses the persisted JSON text back into a collection.
#[verifier::rlimit(100)]
pub fn parse_json(s: &str) -> (r: Result<SnippetMap, StoreError>)
    ensures
        match spec_parse_json(s@) {
            Some(es) => (r matches Ok(m) && m.wf() && m.as_map() == map_of_pairs(es)),
            None => r == Err::<SnippetMap, StoreError>(StoreError::StorageReadError),
        },
{
    proof {
        reveal_strlit("{}");
        reveal_strlit("{\n");
        reveal_strlit(",\n");
        reveal_strlit("\n");
        reveal_strlit("}");
    }
    let v = chars_of(s);
    let n = v.len();
    if n == 2 && v[0] == '{' && v[1] == '}' {
        proof {
            assert(v@ =~= "{}"@);
            assert(map_of_pairs(Seq::<(Seq<char>, SnippetView)>::empty())
                =~= Map::<Seq<char>, SnippetView>::empty());
        }
        return Ok(SnippetMap::new());
    }
    proof {
        assert(v@ != "{}"@) by {
            if v@ == "{}"@ {
                assert(v@.len() == 2);
                assert(v@[0] == '{' && v@[1] == '}');
            }
        }
    }
    let i1 = match eat_lit(&v, 0, "{\n") {
        Some(j) => j,
        None => { return Err(StoreError::StorageReadError) },
    };
    let mut m = SnippetMap::new();
    let ghost mut ges: Seq<(Seq<char>, SnippetView)> = Seq::empty();
    let mut cur: usize = i1;
    loop
        invariant
            v@ == s@,
            n == v@.len(),
            cur <= n,
            m.wf(),
            m.as_map() == map_of_pairs(ges),
            (match parse_entries(v@, cur as int) {
                Some(p) => parse_entries(v@, i1 as int) == Some((ges + p.0, p.1)),
                None => parse_entries(v@, i1 as int) is None,
            }),
            spec_parse_json(v@) == (match parse_entries(v@, i1 as int) {
                Some(p) => if take_lit(v@, p.1, "}"@) == Some(v@.len() as int) {
                    Some(p.0)
                } else {
                    None::<Seq<(Seq<char>, SnippetView)>>
                },
                None => None::<Seq<(Seq<char>, SnippetView)>>,
            }),
        decreases n - cur,
    {
        let ghost c0 = cur as int;
        let ghost ges0 = ges;
        let (name, snip, j) = match parse_entry_exec(&v, cur) {
            Some(p) => p,
            None => {
                proof {
                    assert(parse_entries(v@, c0) is None);
                }
                return Err(StoreError::StorageReadError)
            },
        };
        let ghost pair = (name@, snip@);
        m.insert(name, snip);
        proof {
            ges = ges0 + seq![pair];
            assert(ges.drop_last() =~= ges0);
            assert(ges.last() == pair);
            assert(m.as_map() == map_of_pairs(ges));
        }
        match eat_lit(&v, j, ",\n") {
            Some(j2) => {
                cur = j2;
                proof {
                    reveal_strlit(",\n");
                    match parse_entries(v@, cur as int) {
                        Some(q) => {
                            assert(parse_entries(v@, c0) == Some((seq![pair] + q.0, q.1)));
                            assert(ges0 + (seq![pair] + q.0) =~= ges + q.0);
                        },
                        None => {},
                    }
                }
            },
            None => {
                match eat_lit(&v, j, "\n") {
                    Some(j2) => {
                        proof {
                            reveal_strlit("\n");
                            assert(parse_entries(v@, c0) == Some((seq![pair], j2 as int)));
                            assert(ges0 + seq![pair] =~= ges);
                            assert(parse_entries(v@, i1 as int) == Some((ges, j2 as int)));
                        }
                        match eat_lit(&v, j2, "}") {
                            Some(j3) => {
                                if j3 == n {
                                    proof {
                                        assert(spec_parse_json(v@) == Some(ges));
                                    }
                                    return Ok(m);
                                } else {
                                    proof {
                                        assert(take_lit(v@, j2 as int, "}"@) == Some(j3 as int));
                                        assert(j3 != n);
                                        assert(spec_parse_json(v@) is None);
                                    }
                                    return Err(StoreError::StorageReadError);
                                }
                            },
                            None => {
                                proof {
                                    assert(spec_parse_json(v@) is None);
                                }
                                return Err(StoreError::StorageReadError);
                            },
                        }
                    },
                    None => {
                        proof {
                            assert(parse_entries(v@, c0) is None);
                        }
                        return Err(StoreError::StorageReadError);
                    },
                }
            },
        }
    }
}


proof fn lemma_subrange_split(v: Seq<char>, i: int, a: Seq<char>, b: Seq<char>)
    requires
        0 <= i,
        i + a.len() + b.len() <= v.len(),
        v.subrange(i, i + a.len() + b.len()) == a + b,
    ensures
        v.subrange(i, i + a.len()) == a,
        v.subrange(i + a.len(), i + a.len() + b.len()) == b,
{
    assert(v.subrange(i, i + a.len()) =~= a) by {
        assert forall|k: int| 0 <= k < a.len() implies v.subrange(i, i + a.len())[k] == a[k] by {
            assert(v.subrange(i, i + a.len() + b.len())[k] == (a + b)[k]);
        }
    }
    assert(v.subrange(i + a.len(), i + a.len() + b.len()) =~= b) by {
        assert forall|k: int|
            0 <= k < b.len() implies v.subrange(i + a.len(), i + a.len() + b.len())[k] == b[k] by {
            assert(v.subrange(i, i + a.len() + b.len())[a.len() + k] == (a + b)[a.len() + k]);
            assert(v.subrange(i, i + a.len() + b.len())[a.len() + k] == v[i + a.len() + k]);
            assert((a + b)[a.len() + k] == b[k]);
            assert(v.subrange(i + a.len(), i + a.len() + b.len())[k] == v[i + a.len() + k]);
        }
    }
}

/// An escaped string followed by its closing quote parses back to itself.
#[verifier::rlimit(100)]
proof fn lemma_parse_esc(v: Seq<char>, i: int, s: Seq<char>)
    requires
        0 <= i,
        i + esc(s).len() + 1 <= v.len(),
        v.subrange(i, i + esc(s).len() + 1) == esc(s) + seq!['"'],
    ensures
        parse_str_body(v, i) == Some((s, i + esc(s).len() + 1)),
    decreases s.len(),
{
    reveal(parse_str_body);
    if s.len() == 0 {
        assert(esc(s) =~= Seq::<char>::empty());
        assert(v.subrange(i, i + 1) =~= esc(s) + seq!['"']);
        assert(v[i] == (esc(s) + seq!['"'])[0]);
        assert(v[i] == '"');
    } else {
        let c = s[0];
        let t = esc_char(c);
        let rest = s.drop_first();
        let tl = t.len();
        let el = esc(s).len();
        assert(esc(s) == t + esc(rest));
        assert(esc(s) + seq!['"'] =~= t + (esc(rest) + seq!['"']));
        lemma_subrange_split(v, i, t, esc(rest) + seq!['"']);
        assert forall|k: int| 0 <= k < tl implies v[i + k] == t[k] by {
            assert(v.subrange(i, i + tl)[k] == t[k]);
        }
        assert(v[i + 0] == t[0]);
        lemma_parse_esc(v, i + tl, rest);
        if c == '"' || c == '\\' {
            assert(v[i] == '\\');
            assert(v[i + 1] == c);
            assert(parse_str_body(v, i) == Some((seq![c] + rest, i + el + 1)));
            assert(seq![c] + rest =~= s);
        } else if (c as u32) < 32 {
            let u = c as u32;
            crate::chars::lemma_hex_round_trip((u / 16) as int);
            crate::chars::lemma_hex_round_trip((u % 16) as int);
            assert(v[i] == '\\' && v[i + 1] == 'u' && v[i + 2] == '0' && v[i + 3] == '0');
            assert(v[i + 4] == hex_char((u / 16) as int));
            assert(v[i + 5] == hex_char((u % 16) as int));
            assert(u / 16 < 2);
            assert(v[i + 4] == '0' || v[i + 4] == '1');
            assert(is_hex(v[i + 5]));
            assert(hex_val(v[i + 4]) * 16 + hex_val(v[i + 5]) == u);
            vstd::utf8::char_u32_cast(c, u);
            assert((((hex_val(v[i + 4]) * 16 + hex_val(v[i + 5])) as u32) as char) == c);
            assert(parse_str_body(v, i) == Some((seq![c] + rest, i + el + 1)));
            assert(seq![c] + rest =~= s);
        } else {
            assert(v[i] == c);
            assert(plain_char(c));
            assert(parse_str_body(v, i) == Some((seq![c] + rest, i + el + 1)));
            assert(seq![c] + rest =~= s);
        }
    }
}

/// The rendered text of one entry parses back to that entry.
#[verifier::rlimit(100)]
proof fn lemma_parse_entry_of_text(v: Seq<char>, i: int, e: Entry)
    requires
        e.snippet.wf(),
        0 <= i,
        i + json_entry_text(e).len() <= v.len(),
        v.subrange(i, i + json_entry_text(e).len()) == json_entry_text(e),
    ensures
        parse_entry(v, i) == Some(((e.name@, e.snippet@), i + json_entry_text(e).len())),
{
    reveal(parse_entry);
    reveal_strlit("  \"");
    reveal_strlit("\": {\n    \"content\": \"");
    reveal_strlit(": {\n    \"content\": \"");
    reveal_strlit("\",\n    \"created_at\": \"");
    reveal_strlit(",\n    \"created_at\": \"");
    reveal_strlit("\"\n  }");
    reveal_strlit("\n  }");
    let l1 = "  \""@;
    let a = esc(e.name@) + seq!['"'];
    let l2 = ": {\n    \"content\": \""@;
    let b = esc(e.snippet.content@) + seq!['"'];
    let l3 = ",\n    \"created_at\": \""@;
    let f = fmt_rfc3339(e.snippet.created_at);
    let cc = f + seq!['"'];
    let l4 = "\n  }"@;
    assert(json_entry_text(e) =~= l1 + (a + (l2 + (b + (l3 + (cc + l4))))));
    lemma_subrange_split(v, i, l1, a + (l2 + (b + (l3 + (cc + l4)))));
    assert(take_lit(v, i, l1) == Some(i + l1.len() as int));
    let i1 = i + l1.len() as int;
    lemma_subrange_split(v, i1, a, l2 + (b + (l3 + (cc + l4))));
    lemma_parse_esc(v, i1, e.name@);
    let i2 = i1 + a.len() as int;
    lemma_subrange_split(v, i2, l2, b + (l3 + (cc + l4)));
    assert(take_lit(v, i2, l2) == Some(i2 + l2.len() as int));
    let i3 = i2 + l2.len() as int;
    lemma_subrange_split(v, i3, b, l3 + (cc + l4));
    lemma_parse_esc(v, i3, e.snippet.content@);
    let i4 = i3 + b.len() as int;
    lemma_subrange_split(v, i4, l3, cc + l4);
    assert(take_lit(v, i4, l3) == Some(i4 + l3.len() as int));
    let i5 = i4 + l3.len() as int;
    lemma_subrange_split(v, i5, cc, l4);
    lemma_fmt_plain(e.snippet.created_at);
    lemma_esc_plain(f);
    lemma_parse_esc(v, i5, f);
    lemma_parse_of_fmt(e.snippet.created_at);
    let i6 = i5 + cc.len() as int;
    assert(take_lit(v, i6, l4) == Some(i6 + l4.len() as int));
    let i7 = i6 + l4.len() as int;
    assert(i7 == i + json_entry_text(e).len());
    assert(parse_entry(v, i) == Some(((e.name@, e.snippet@), i7)));
}

/// The pairs an entry sequence spells.
pub open spec fn pairs_of(s: Seq<Entry>) -> Seq<(Seq<char>, SnippetView)> {
    s.map_values(|e: Entry| (e.name@, e.snippet@))
}

/// The rendered text of the entries from `idx` on parses back to their pairs.
#[verifier::rlimit(100)]
proof fn lemma_parse_entries_of_text(v: Seq<char>, i: int, s: Seq<Entry>, idx: int)
    requires
        0 <= idx < s.len(),
        forall|k: int| 0 <= k < s.len() ==> (#[trigger] s[k].snippet).wf(),
        0 <= i,
        i + json_entries_text(s, idx).len() <= v.len(),
        v.subrange(i, i + json_entries_text(s, idx).len()) == json_entries_text(s, idx),
    ensures
        parse_entries(v, i) == Some(
            (pairs_of(s.subrange(idx, s.len() as int)), i + json_entries_text(s, idx).len()),
        ),
    decreases s.len() - idx,
{
    reveal_strlit(",\n");
    reveal_strlit("\n");
    reveal_strlit("  \"");
    let t = json_entries_text(s, idx);
    let e = json_entry_text(s[idx]);
    assert(e.len() > 0);
    if idx == s.len() - 1 {
        assert(json_entries_text(s, idx + 1) =~= Seq::<char>::empty());
        assert(t =~= e + "\n"@);
        lemma_subrange_split(v, i, e, "\n"@);
        lemma_parse_entry_of_text(v, i, s[idx]);
        let j = i + e.len() as int;
        assert(v[j] == '\n') by {
            assert(v.subrange(j, j + 1)[0] == "\n"@[0]);
        }
        assert(take_lit(v, j, ",\n"@) is None) by {
            if take_lit(v, j, ",\n"@) is Some {
                assert(v.subrange(j, j + 2) == ",\n"@);
                assert(v.subrange(j, j + 2)[0] == v[j]);
                assert(v[j] == ',');
            }
        }
        assert(take_lit(v, j, "\n"@) == Some(j + 1));
        assert(parse_entries(v, i) == Some((seq![(s[idx].name@, s[idx].snippet@)], j + 1)));
        assert(seq![(s[idx].name@, s[idx].snippet@)] =~= pairs_of(s.subrange(idx, s.len() as int)));
    } else {
        assert(t =~= e + (",\n"@ + json_entries_text(s, idx + 1)));
        lemma_subrange_split(v, i, e, ",\n"@ + json_entries_text(s, idx + 1));
        lemma_parse_entry_of_text(v, i, s[idx]);
        let j = i + e.len() as int;
        lemma_subrange_split(v, j, ",\n"@, json_entries_text(s, idx + 1));
        assert(take_lit(v, j, ",\n"@) == Some(j + 2));
        lemma_parse_entries_of_text(v, j + 2, s, idx + 1);
        assert(parse_entries(v, i) == Some(
            (
                seq![(s[idx].name@, s[idx].snippet@)] + pairs_of(s.subrange(idx + 1, s.len() as int)),
                i + t.len(),
            ),
        ));
        assert(seq![(s[idx].name@, s[idx].snippet@)] + pairs_of(s.subrange(idx + 1, s.len() as int))
            =~= pairs_of(s.subrange(idx, s.len() as int)));
    }
}

proof fn lemma_map_pairs(s: Seq<Entry>)
    ensures
        map_of_pairs(pairs_of(s)) == map_of_entries(s),
    decreases s.len(),
{
    if s.len() > 0 {
        lemma_map_pairs(s.drop_last());
        assert(pairs_of(s).drop_last() =~= pairs_of(s.drop_last()));
        assert(pairs_of(s).last() == (s.last().name@, s.last().snippet@));
        assert(map_of_pairs(pairs_of(s)) == map_of_entries(s));
    } else {
        assert(pairs_of(s).len() == 0);
    }
}

/// The JSON round trip: the rendered text of a well-formed collection
/// parses, and the parsed pairs spell exactly the collection's map.
pub proof fn lemma_json_round_trip(m: SnippetMap)
    requires
        m.wf(),
    ensures
        spec_parse_json(json_text(m)) == Some(pairs_of(m.entries@)),
        map_of_pairs(pairs_of(m.entries@)) == m.as_map(),
{
    reveal_strlit("{}");
    reveal_strlit("{\n");
    reveal_strlit("}");
    let s = m.entries@;
    lemma_map_pairs(s);
    if s.len() == 0 {
        assert(json_text(m) == "{}"@);
        assert(pairs_of(s) =~= Seq::<(Seq<char>, SnippetView)>::empty());
        assert(spec_parse_json(json_text(m)) == Some(Seq::<(Seq<char>, SnippetView)>::empty()));
    } else {
        let v = json_text(m);
        let t = json_entries_text(s, 0);
        assert(v =~= "{\n"@ + (t + "}"@));
        assert(v.len() == 3 + t.len());
        assert(v != "{}"@);
        assert(v.subrange(0, v.len() as int) =~= v);
        lemma_subrange_split(v, 0, "{\n"@, t + "}"@);
        assert(take_lit(v, 0, "{\n"@) == Some(2int));
        lemma_subrange_split(v, 2, t, "}"@);
        lemma_parse_entries_of_text(v, 2, s, 0);
        assert(s.subrange(0, s.len() as int) =~= s);
        assert(v.subrange(2 + t.len() as int, 3 + t.len() as int)[0] == "}"@[0]);
        assert(take_lit(v, 2 + t.len() as int, "}"@) == Some(v.len() as int));
        assert(spec_parse_json(v) == Some(pairs_of(s)));
    }
}

/// File-backed storage: the path of the JSON file holding the collection.
#[derive(Debug, Clone)]
pub struct JsonStorage {
    pub path: String,
}

impl JsonStorage {
    pub fn new(path: String) -> (r: JsonStorage)
        ensures
            r.path == path,
    {
        JsonStorage { path }
    }

    /// Encodes the collection as the file's full text.
    pub fn encode(&self, m: &SnippetMap) -> (r: String)
        requires
            m.wf(),
        ensures
            r@ == json_text(*m),
    {
        render_json(m)
    }

    /// Decodes the file's full text; an absent file is the empty collection.
    pub fn decode(&self, content: Option<&String>) -> (r: Result<SnippetMap, StoreError>)
        ensures
            match content {
                None => (r matches Ok(m) && m.wf() && m.entries@.len() == 0 && m.as_map()
                    == Map::<Seq<char>, SnippetView>::empty()),
                Some(text) => (match spec_parse_json(text@) {
                    Some(es) => r matches Ok(m) && m.wf() && m.as_map() == map_of_pairs(es),
                    None => r == Err::<SnippetMap, StoreError>(StoreError::StorageReadError),
                }),
            },
    {
        match content {
            None => Ok(SnippetMap::new()),
            Some(text) => parse_json(text.as_str()),
        }
    }
}

} // verus!

//! The executable JSON codec.  `to_json` is proved to render exactly
//! `json_of_block`, and `from_json` is proved to return a block if and only
//! if the input matches `from_json_spec`.

use vstd::prelude::*;

use crate::chars::{collect_chars, err_at, push_char, str_eq};
use crate::json::{
    elements_chars, from_json_spec, json_element_array, json_element_items, json_elements_rest,
    json_key, json_of_block, json_of_element, json_quote, json_string_array, json_string_items,
    json_strings_rest, modifiers_chars, name_chars, scan_jelement, scan_jelement_array,
    scan_jelements_rest, scan_jstring, scan_jstring_array, scan_jstring_body, scan_jstrings_rest,
    scan_key, unescape,
};
use crate::json::{lemma_json_elements_rest_push, lemma_json_strings_rest_push};
use crate::models::{BEMBlock, BEMElement, ElementView};
use crate::parser::skip_ws;

verus! {

/// Builds the message of a deserialization error.
fn deser_err(pos: usize, what: &str) -> String {
    err_at("deserialization error", pos, what)
}

/// Appends a string in quotes.  Used on identifier strings only, which
/// contain nothing that would need escaping.
fn append_quoted(out: &mut String, s: &str)
    ensures
        final(out)@ == old(out)@ + json_quote(s@),
{
    out.append("\"");
    out.append(s);
    out.append("\"");
    proof {
        reveal_strlit("\"");
        assert(final(out)@ =~= old(out)@ + json_quote(s@));
    }
}

/// Appends a key in quotes and the colon behind it.
fn append_key(out: &mut String, k: &str)
    ensures
        final(out)@ == old(out)@ + json_key(k@),
{
    append_quoted(out, k);
    out.append(":");
    proof {
        reveal_strlit(":");
        assert(final(out)@ =~= old(out)@ + json_key(k@));
    }
}

/// Appends an array of strings.
fn append_string_array(out: &mut String, ms: &Vec<String>)
    ensures
        final(out)@ == old(out)@ + json_string_array(ms.deep_view()),
{
    out.append("[");
    proof {
        reveal_strlit("[");
        assert(ms.deep_view().take(0) =~= Seq::<Seq<char>>::empty());
        assert(out@ =~= old(out)@ + seq!['['] + json_string_items(ms.deep_view().take(0)));
    }
    let mut k: usize = 0;
    while k < ms.len()
        invariant
            k <= ms.len(),
            out@ == old(out)@ + seq!['['] + json_string_items(ms.deep_view().take(k as int)),
        decreases ms.len() - k,
    {
        let ghost pre = out@;
        let ghost dv = ms.deep_view();
        if k > 0 {
            out.append(",");
            proof {
                reveal_strlit(",");
            }
        }
        append_quoted(out, ms[k].as_str());
        proof {
            assert(dv.take(k + 1) =~= dv.take(k as int).push(dv[k as int]));
            if k == 0 {
                assert(dv.take(1).drop_first() =~= Seq::<Seq<char>>::empty());
                assert(json_string_items(dv.take(1)) =~= json_quote(dv[0]));
                assert(out@ =~= old(out)@ + seq!['['] + json_string_items(dv.take(k + 1)));
            } else {
                lemma_json_strings_rest_push(dv.take(k as int).drop_first(), dv[k as int]);
                assert(dv.take(k + 1).drop_first() =~= dv.take(k as int).drop_first().push(
                    dv[k as int],
                ));
                assert(dv.take(k + 1)[0] == dv[0]);
                assert(dv.take(k as int)[0] == dv[0]);
                assert(json_string_items(dv.take(k + 1)) == json_quote(dv[0])
                    + json_strings_rest(dv.take(k as int).drop_first().push(dv[k as int])));
                assert(json_string_items(dv.take(k + 1)) =~= json_string_items(
                    dv.take(k as int),
                ) + seq![','] + json_quote(dv[k as int]));
                assert(out@ =~= old(out)@ + seq!['['] + json_string_items(dv.take(k + 1)));
            }
        }
        k = k + 1;
    }
    out.append("]");
    proof {
        reveal_strlit("]");
        assert(ms.deep_view().take(ms.len() as int) =~= ms.deep_view());
        assert(final(out)@ =~= old(out)@ + json_string_array(ms.deep_view()));
    }
}

/// Appends one element as a JSON object.
fn append_element(out: &mut String, e: &BEMElement)
    ensures
        final(out)@ == old(out)@ + json_of_element(e@),
{
    out.append("{");
    proof {
        reveal_strlit("{");
    }
    append_key(out, "name");
    proof {
        reveal_strlit("name");
        assert("name"@ =~= name_chars());
    }
    append_quoted(out, e.name.as_str());
    out.append(",");
    proof {
        reveal_strlit(",");
    }
    append_key(out, "modifiers");
    proof {
        reveal_strlit("modifiers");
        assert("modifiers"@ =~= modifiers_chars());
    }
    append_string_array(out, &e.modifiers);
    out.append("}");
    proof {
        reveal_strlit("}");
        assert(final(out)@ =~= old(out)@ + json_of_element(e@));
    }
}

/// Appends an array of elements.
fn append_element_array(out: &mut String, es: &Vec<BEMElement>)
    ensures
        final(out)@ == old(out)@ + json_element_array(es.deep_view()),
{
    out.append("[");
    proof {
        reveal_strlit("[");
        assert(es.deep_view().take(0) =~= Seq::<ElementView>::empty());
        assert(out@ =~= old(out)@ + seq!['['] + json_element_items(es.deep_view().take(0)));
    }
    let mut k: usize = 0;
    while k < es.len()
        invariant
            k <= es.len(),
            out@ == old(out)@ + seq!['['] + json_element_items(es.deep_view().take(k as int)),
        decreases es.len() - k,
    {
        let ghost dv = es.deep_view();
        if k > 0 {
            out.append(",");
            proof {
                reveal_strlit(",");
            }
        }
        append_element(out, &es[k]);
        proof {
            assert(dv.take(k + 1) =~= dv.take(k as int).push(dv[k as int]));
            if k == 0 {
                assert(dv.take(1).drop_first() =~= Seq::<ElementView>::empty());
                assert(json_element_items(dv.take(1)) =~= json_of_element(dv[0]));
                assert(out@ =~= old(out)@ + seq!['['] + json_element_items(dv.take(k + 1)));
            } else {
                lemma_json_elements_rest_push(dv.take(k as int).drop_first(), dv[k as int]);
                assert(dv.take(k + 1).drop_first() =~= dv.take(k as int).drop_first().push(
                    dv[k as int],
                ));
                assert(dv.take(k + 1)[0] == dv[0]);
                assert(dv.take(k as int)[0] == dv[0]);
                assert(json_element_items(dv.take(k + 1)) == json_of_element(dv[0])
                    + json_elements_rest(dv.take(k as int).drop_first().push(dv[k as int])));
                assert(json_element_items(dv.take(k + 1)) =~= json_element_items(
                    dv.take(k as int),
                ) + seq![','] + json_of_element(dv[k as int]));
                assert(out@ =~= old(out)@ + seq!['['] + json_element_items(dv.take(k + 1)));
            }
        }
        k = k + 1;
    }
    out.append("]");
    proof {
        reveal_strlit("]");
        assert(es.deep_view().take(es.len() as int) =~= es.deep_view());
        assert(final(out)@ =~= old(out)@ + json_element_array(es.deep_view()));
    }
}

/// Renders a block as JSON text: the fields `name`, `modifiers` and
/// `elements`, in that order, with no added whitespace.
///
/// Rendering cannot fail; the `Result` is kept for interface completeness,
/// and the contract states that the success value is always returned.
pub fn to_json(bem_block: &BEMBlock) -> (r: Result<String, String>)
    ensures
        r matches Ok(j) && j@ == json_of_block(bem_block@),
{
    let mut out = String::new();
    out.append("{");
    proof {
        reveal_strlit("{");
    }
    append_key(&mut out, "name");
    proof {
        reveal_strlit("name");
        assert("name"@ =~= name_chars());
    }
    append_quoted(&mut out, bem_block.name.as_str());
    out.append(",");
    proof {
        reveal_strlit(",");
    }
    append_key(&mut out, "modifiers");
    proof {
        reveal_strlit("modifiers");
        assert("modifiers"@ =~= modifiers_chars());
    }
    append_string_array(&mut out, &bem_block.modifiers);
    out.append(",");
    proof {
        reveal_strlit(",");
    }
    append_key(&mut out, "elements");
    proof {
        reveal_strlit("elements");
        assert("elements"@ =~= elements_chars());
    }
    append_element_array(&mut out, &bem_block.elements);
    out.append("}");
    proof {
        reveal_strlit("}");
        assert(out@ =~= json_of_block(bem_block@));
    }
    Ok(out)
}

/// What a backslash escape stands for, if it is understood.
fn unescape_exec(c: char) -> (r: Option<char>)
    ensures
        r == unescape(c),
{
    if c == '"' {
        Some('"')
    } else if c == '\\' {
        Some('\\')
    } else if c == '/' {
        Some('/')
    } else if c == 'n' {
        Some('\n')
    } else if c == 't' {
        Some('\t')
    } else if c == 'r' {
        Some('\r')
    } else {
        None
    }
}

/// Scans one JSON string.
fn scan_jstring_exec(cs: &Vec<char>, i: usize) -> (r: Option<(String, usize)>)
    requires
        i <= cs.len(),
    ensures
        match r {
            Some((t, j)) => scan_jstring(cs@, i as int) == Some((t@, j as int)) && i < j
                <= cs.len(),
            None => scan_jstring(cs@, i as int) is None,
        },
{
    if !(i < cs.len() && cs[i] == '"') {
        return None;
    }
    let mut content = String::new();
    let mut cur: usize = i + 1;
    loop
        invariant
            i < cs.len(),
            cs@[i as int] == '"',
            i + 1 <= cur <= cs.len(),
            scan_jstring_body(cs@, i + 1) == (match scan_jstring_body(cs@, cur as int) {
                Some((t, j)) => Some((content@ + t, j)),
                None => None,
            }),
        decreases cs.len() - cur,
    {
        if cur >= cs.len() {
            return None;
        }
        let c = cs[cur];
        if c == '"' {
            proof {
                assert(scan_jstring_body(cs@, cur as int) == Some(
                    (Seq::<char>::empty(), cur + 1),
                ));
                assert(content@ + Seq::<char>::empty() =~= content@);
            }
            return Some((content, cur + 1));
        }
        if c == '\\' {
            if cur + 1 >= cs.len() {
                return None;
            }
            let u = match unescape_exec(cs[cur + 1]) {
                Some(u) => u,
                None => {
                    return None;
                },
            };
            let ghost pre = content@;
            push_char(&mut content, u);
            proof {
                let r0 = scan_jstring_body(cs@, cur + 2);
                if r0 is Some {
                    let (t, j) = r0->Some_0;
                    assert(scan_jstring_body(cs@, cur as int) == Some((seq![u] + t, j)));
                    assert(pre + (seq![u] + t) =~= (pre + seq![u]) + t);
                } else {
                    assert(scan_jstring_body(cs@, cur as int) is None);
                }
            }
            cur = cur + 2;
        } else {
            let ghost pre = content@;
            push_char(&mut content, c);
            proof {
                let r0 = scan_jstring_body(cs@, cur + 1);
                if r0 is Some {
                    let (t, j) = r0->Some_0;
                    assert(scan_jstring_body(cs@, cur as int) == Some((seq![c] + t, j)));
                    assert(pre + (seq![c] + t) =~= (pre + seq![c]) + t);
                } else {
                    assert(scan_jstring_body(cs@, cur as int) is None);
                }
            }
            cur = cur + 1;
        }
    }
}

/// Scans a key: a string that must spell `k`, then a colon, with
/// whitespace allowed around the colon.
fn scan_key_exec(cs: &Vec<char>, i: usize, k: &str) -> (r: Option<usize>)
    requires
        i <= cs.len(),
    ensures
        match r {
            Some(a) => scan_key(cs@, i as int, k@) == Some(a as int) && i < a <= cs.len(),
            None => scan_key(cs@, i as int, k@) is None,
        },
{
    match scan_jstring_exec(cs, i) {
        Some((c, j)) => {
            if str_eq(c.as_str(), k) {
                let a = skip_ws(cs, j);
                if a < cs.len() && cs[a] == ':' {
                    Some(skip_ws(cs, a + 1))
                } else {
                    None
                }
            } else {
                None
            }
        },
        None => None,
    }
}

/// Scans an array of strings.
fn scan_jstring_array_exec(cs: &Vec<char>, i: usize) -> (r: Result<(Vec<String>, usize), String>)
    requires
        i <= cs.len(),
    ensures
        match r {
            Ok((ms, p)) => scan_jstring_array(cs@, i as int) == Some((ms.deep_view(), p as int))
                && i < p <= cs.len(),
            Err(_) => scan_jstring_array(cs@, i as int) is None,
        },
{
    if !(i < cs.len() && cs[i] == '[') {
        return Err(deser_err(i, "expected '['"));
    }
    let j = skip_ws(cs, i + 1);
    if j < cs.len() && cs[j] == ']' {
        let ms: Vec<String> = Vec::new();
        proof {
            assert(ms.deep_view() =~= Seq::<Seq<char>>::empty());
        }
        return Ok((ms, j + 1));
    }
    let (m0, k0) = match scan_jstring_exec(cs, j) {
        Some(x) => x,
        None => {
            return Err(deser_err(j, "expected a string"));
        },
    };
    let mut ms: Vec<String> = Vec::new();
    ms.push(m0);
    let mut pos: usize = skip_ws(cs, k0);
    proof {
        assert(ms.deep_view() =~= seq![ms@[0]@]);
    }
    loop
        invariant
            i < pos <= cs.len(),
            scan_jstring_array(cs@, i as int) == (match scan_jstrings_rest(cs@, pos as int) {
                Some((rest, p)) => Some((ms.deep_view() + rest, p)),
                None => None,
            }),
        decreases cs.len() - pos,
    {
        if pos < cs.len() && cs[pos] == ']' {
            proof {
                assert(scan_jstrings_rest(cs@, pos as int) == Some(
                    (Seq::<Seq<char>>::empty(), pos + 1),
                ));
                assert(ms.deep_view() + Seq::<Seq<char>>::empty() =~= ms.deep_view());
            }
            return Ok((ms, pos + 1));
        }
        if pos < cs.len() && cs[pos] == ',' {
            let j2 = skip_ws(cs, pos + 1);
            match scan_jstring_exec(cs, j2) {
                Some((m, k)) => {
                    let ghost old_view = ms.deep_view();
                    let ghost mv = m@;
                    ms.push(m);
                    let next = skip_ws(cs, k);
                    proof {
                        assert(ms.deep_view() =~= old_view + seq![mv]);
                        let r0 = scan_jstrings_rest(cs@, next as int);
                        if r0 is Some {
                            let (rest, p) = r0->Some_0;
                            assert(scan_jstrings_rest(cs@, pos as int) == Some(
                                (seq![mv] + rest, p),
                            ));
                            assert(old_view + (seq![mv] + rest) =~= (old_view + seq![mv])
                                + rest);
                        } else {
                            assert(scan_jstrings_rest(cs@, pos as int) is None);
                        }
                    }
                    pos = next;
                },
                None => {
                    proof {
                        assert(scan_jstrings_rest(cs@, pos as int) is None);
                    }
                    return Err(deser_err(j2, "expected a string"));
                },
            }
        } else {
            proof {
                assert(scan_jstrings_rest(cs@, pos as int) is None);
            }
            return Err(deser_err(pos, "expected ',' or ']'"));
        }
    }
}

/// Scans one element: an object with the fields `name` and `modifiers`.
fn scan_jelement_exec(cs: &Vec<char>, i: usize) -> (r: Result<(BEMElement, usize), String>)
    requires
        i <= cs.len(),
    ensures
        match r {
            Ok((e, p)) => scan_jelement(cs@, i as int) == Some((e@, p as int)) && i < p
                <= cs.len(),
            Err(_) => scan_jelement(cs@, i as int) is None,
        },
{
    if !(i < cs.len() && cs[i] == '{') {
        return Err(deser_err(i, "expected '{'"));
    }
    let a = skip_ws(cs, i + 1);
    let b = match scan_key_exec(cs, a, "name") {
        Some(b) => b,
        None => {
            proof {
                reveal_strlit("name");
                assert("name"@ =~= name_chars());
            }
            return Err(deser_err(a, "missing field name"));
        },
    };
    proof {
        reveal_strlit("name");
        assert("name"@ =~= name_chars());
    }
    let (n, c) = match scan_jstring_exec(cs, b) {
        Some(x) => x,
        None => {
            return Err(deser_err(b, "expected a string"));
        },
    };
    let d = skip_ws(cs, c);
    if !(d < cs.len() && cs[d] == ',') {
        return Err(deser_err(d, "missing field modifiers"));
    }
    let e = skip_ws(cs, d + 1);
    let f = match scan_key_exec(cs, e, "modifiers") {
        Some(f) => f,
        None => {
            proof {
                reveal_strlit("modifiers");
                assert("modifiers"@ =~= modifiers_chars());
            }
            return Err(deser_err(e, "missing field modifiers"));
        },
    };
    proof {
        reveal_strlit("modifiers");
        assert("modifiers"@ =~= modifiers_chars());
    }
    let (ms, g) = match scan_jstring_array_exec(cs, f) {
        Ok(x) => x,
        Err(msg) => {
            return Err(msg);
        },
    };
    let h = skip_ws(cs, g);
    if h < cs.len() && cs[h] == '}' {
        Ok((BEMElement { name: n, modifiers: ms }, h + 1))
    } else {
        Err(deser_err(h, "expected '}'"))
    }
}

/// Scans an array of elements.
fn scan_jelement_array_exec(cs: &Vec<char>, i: usize) -> (r: Result<
    (Vec<BEMElement>, usize),
    String,
>)
    requires
        i <= cs.len(),
    ensures
        match r {
            Ok((es, p)) => scan_jelement_array(cs@, i as int) == Some(
                (es.deep_view(), p as int),
            ) && i < p <= cs.len(),
            Err(_) => scan_jelement_array(cs@, i as int) is None,
        },
{
    if !(i < cs.len() && cs[i] == '[') {
        return Err(deser_err(i, "expected '['"));
    }
    let j = skip_ws(cs, i + 1);
    if j < cs.len() && cs[j] == ']' {
        let es: Vec<BEMElement> = Vec::new();
        proof {
            assert(es.deep_view() =~= Seq::<ElementView>::empty());
        }
        return Ok((es, j + 1));
    }
    let (e0, k0) = match scan_jelement_exec(cs, j) {
        Ok(x) => x,
        Err(msg) => {
            return Err(msg);
        },
    };
    let mut es: Vec<BEMElement> = Vec::new();
    es.push(e0);
    let mut pos: usize = skip_ws(cs, k0);
    proof {
        assert(es.deep_view() =~= seq![es@[0]@]);
    }
    loop
        invariant
            i < pos <= cs.len(),
            scan_jelement_array(cs@, i as int) == (match scan_jelements_rest(cs@, pos as int) {
                Some((rest, p)) => Some((es.deep_view() + rest, p)),
                None => None,
            }),
        decreases cs.len() - pos,
    {
        if pos < cs.len() && cs[pos] == ']' {
            proof {
                assert(scan_jelements_rest(cs@, pos as int) == Some(
                    (Seq::<ElementView>::empty(), pos + 1),
                ));
                assert(es.deep_view() + Seq::<ElementView>::empty() =~= es.deep_view());
            }
            return Ok((es, pos + 1));
        }
        if pos < cs.len() && cs[pos] == ',' {
            let j2 = skip_ws(cs, pos + 1);
            match scan_jelement_exec(cs, j2) {
                Ok((e, k)) => {
                    let ghost old_view = es.deep_view();
                    let ghost ev = e@;
                    es.push(e);
                    let next = skip_ws(cs, k);
                    proof {
                        assert(es.deep_view() =~= old_view + seq![ev]);
                        let r0 = scan_jelements_rest(cs@, next as int);
                        if r0 is Some {
                            let (rest, p) = r0->Some_0;
                            assert(scan_jelements_rest(cs@, pos as int) == Some(
                                (seq![ev] + rest, p),
                            ));
                            assert(old_view + (seq![ev] + rest) =~= (old_view + seq![ev])
                                + rest);
                        } else {
                            assert(scan_jelements_rest(cs@, pos as int) is None);
                        }
                    }
                    pos = next;
                },
                Err(msg) => {
                    proof {
                        assert(scan_jelements_rest(cs@, pos as int) is None);
                    }
                    return Err(msg);
                },
            }
        } else {
            proof {
                assert(scan_jelements_rest(cs@, pos as int) is None);
            }
            return Err(deser_err(pos, "expected ',' or ']'"));
        }
    }
}

/// Reads a block back from JSON text.
///
/// Succeeds exactly on text that matches `from_json_spec`: one object with
/// the fields `name`, `modifiers` and `elements` in that order, whitespace
/// allowed between tokens, nothing but whitespace after the closing brace.
/// A missing or misplaced field, an unknown field, and malformed JSON all
/// fail with a message naming the offending place.
pub fn from_json(json: &str) -> (r: Result<BEMBlock, String>)
    ensures
        r matches Ok(b) ==> from_json_spec(json@) == Some(b@),
        r is Err ==> from_json_spec(json@) is None,
{
    let cs = collect_chars(json);
    let i = skip_ws(&cs, 0);
    if !(i < cs.len() && cs[i] == '{') {
        return Err(deser_err(i, "expected '{'"));
    }
    let a = skip_ws(&cs, i + 1);
    let b = match scan_key_exec(&cs, a, "name") {
        Some(b) => b,
        None => {
            proof {
                reveal_strlit("name");
                assert("name"@ =~= name_chars());
            }
            return Err(deser_err(a, "missing field name"));
        },
    };
    proof {
        reveal_strlit("name");
        assert("name"@ =~= name_chars());
    }
    let (n, c) = match scan_jstring_exec(&cs, b) {
        Some(x) => x,
        None => {
            return Err(deser_err(b, "expected a string"));
        },
    };
    let d = skip_ws(&cs, c);
    if !(d < cs.len() && cs[d] == ',') {
        return Err(deser_err(d, "missing field modifiers"));
    }
    let e = skip_ws(&cs, d + 1);
    let f = match scan_key_exec(&cs, e, "modifiers") {
        Some(f) => f,
        None => {
            proof {
                reveal_strlit("modifiers");
                assert("modifiers"@ =~= modifiers_chars());
            }
            return Err(deser_err(e, "missing field modifiers"));
        },
    };
    proof {
        reveal_strlit("modifiers");
        assert("modifiers"@ =~= modifiers_chars());
    }
    let (ms, g) = match scan_jstring_array_exec(&cs, f) {
        Ok(x) => x,
        Err(msg) => {
            return Err(msg);
        },
    };
    let h = skip_ws(&cs, g);
    if !(h < cs.len() && cs[h] == ',') {
        return Err(deser_err(h, "missing field elements"));
    }
    let p = skip_ws(&cs, h + 1);
    let q = match scan_key_exec(&cs, p, "elements") {
        Some(q) => q,
        None => {
            proof {
                reveal_strlit("elements");
                assert("elements"@ =~= elements_chars());
            }
            return Err(deser_err(p, "missing field elements"));
        },
    };
    proof {
        reveal_strlit("elements");
        assert("elements"@ =~= elements_chars());
    }
    let (es, t) = match scan_jelement_array_exec(&cs, q) {
        Ok(x) => x,
        Err(msg) => {
            return Err(msg);
        },
    };
    let u = skip_ws(&cs, t);
    if !(u < cs.len() && cs[u] == '}') {
        return Err(deser_err(u, "expected '}'"));
    }
    let v = skip_ws(&cs, u + 1);
    if v < cs.len() {
        return Err(deser_err(v, "unexpected text after the closing brace"));
    }
    Ok(BEMBlock { name: n, modifiers: ms, elements: es })
}

} // verus!

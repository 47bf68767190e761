//! The executable parser.  Each scanning function is proved to return
//! exactly what the corresponding specification-level function of
//! `crate::grammar` describes, and `parse` is proved to return a block if
//! and only if the whole input matches the document grammar.

use vstd::prelude::*;

use crate::chars::{collect_chars, ident_char, ws_char};
use crate::grammar::{
    ident_end, nl_end, parse_spec, scan_elements, scan_line_body, scan_mod_list, scan_modifier,
    scan_mods_rest, ws_end,
};
use crate::grammar::lemma_parse_spec_wf;
use crate::models::{wf_block, BEMBlock, BEMElement};

verus! {

/// Builds the message of a syntax error: what was expected, and where.
fn syntax_err(pos: usize, what: &str) -> String {
    crate::chars::err_at("syntax error", pos, what)
}

/// Advances over identifier characters.
fn skip_ident(cs: &Vec<char>, i: usize) -> (j: usize)
    requires
        i <= cs.len(),
    ensures
        j as int == ident_end(cs@, i as int),
        i <= j <= cs.len(),
{
    let mut j: usize = i;
    while j < cs.len() && ident_char(cs[j])
        invariant
            i <= j <= cs.len(),
            ident_end(cs@, i as int) == ident_end(cs@, j as int),
        decreases cs.len() - j,
    {
        j = j + 1;
    }
    j
}

/// Advances over whitespace characters.
pub(crate) fn skip_ws(cs: &Vec<char>, i: usize) -> (j: usize)
    requires
        i <= cs.len(),
    ensures
        j as int == ws_end(cs@, i as int),
        i <= j <= cs.len(),
{
    let mut j: usize = i;
    while j < cs.len() && ws_char(cs[j])
        invariant
            i <= j <= cs.len(),
            ws_end(cs@, i as int) == ws_end(cs@, j as int),
        decreases cs.len() - j,
    {
        j = j + 1;
    }
    j
}

/// Advances over newline characters.
fn skip_nl(cs: &Vec<char>, i: usize) -> (j: usize)
    requires
        i <= cs.len(),
    ensures
        j as int == nl_end(cs@, i as int),
        i <= j <= cs.len(),
{
    let mut j: usize = i;
    while j < cs.len() && cs[j] == '\n'
        invariant
            i <= j <= cs.len(),
            nl_end(cs@, i as int) == nl_end(cs@, j as int),
        decreases cs.len() - j,
    {
        j = j + 1;
    }
    j
}

/// Scans one modifier: optional whitespace, an identifier, optional
/// whitespace.
fn scan_modifier_exec(input: &str, cs: &Vec<char>, i: usize) -> (r: Option<(String, usize)>)
    requires
        cs@ == input@,
        i <= cs.len(),
    ensures
        match r {
            Some((m, j)) => scan_modifier(cs@, i as int) == Some((m@, j as int)) && i < j
                <= cs.len(),
            None => scan_modifier(cs@, i as int) is None,
        },
{
    let a = skip_ws(cs, i);
    let b = skip_ident(cs, a);
    if b == a {
        None
    } else {
        let m = String::from_str(input.substring_char(a, b));
        let j = skip_ws(cs, b);
        Some((m, j))
    }
}

/// Scans a modifier list, entered just after the opening bracket.
fn scan_mod_list_exec(input: &str, cs: &Vec<char>, i: usize) -> (r: Result<
    (Vec<String>, usize),
    String,
>)
    requires
        cs@ == input@,
        i <= cs.len(),
    ensures
        match r {
            Ok((ms, k)) => scan_mod_list(cs@, i as int) == Some((ms.deep_view(), k as int)) && i
                < k <= cs.len(),
            Err(_) => scan_mod_list(cs@, i as int) is None,
        },
{
    if i < cs.len() && cs[i] == ']' {
        let ms: Vec<String> = Vec::new();
        proof {
            assert(ms.deep_view() =~= Seq::<Seq<char>>::empty());
        }
        return Ok((ms, i + 1));
    }
    let first = scan_modifier_exec(input, cs, i);
    let (m0, start) = match first {
        Some(x) => x,
        None => {
            return Err(syntax_err(i, "expected a modifier"));
        },
    };
    let mut ms: Vec<String> = Vec::new();
    ms.push(m0);
    let mut pos: usize = start;
    proof {
        assert(ms.deep_view() =~= seq![ms@[0]@]);
    }
    loop
        invariant
            cs@ == input@,
            i < pos <= cs.len(),
            scan_mod_list(cs@, i as int) == (match scan_mods_rest(cs@, pos as int) {
                Some((rest, k)) => Some((ms.deep_view() + rest, k)),
                None => None,
            }),
        decreases cs.len() - pos,
    {
        if pos < cs.len() && cs[pos] == ']' {
            proof {
                assert(scan_mods_rest(cs@, pos as int) == Some(
                    (Seq::<Seq<char>>::empty(), pos + 1),
                ));
                assert(ms.deep_view() + Seq::<Seq<char>>::empty() =~= ms.deep_view());
            }
            return Ok((ms, pos + 1));
        }
        if pos < cs.len() && cs[pos] == ',' {
            if pos + 1 < cs.len() && cs[pos + 1] == ']' {
                proof {
                    assert(scan_mods_rest(cs@, pos as int) == Some(
                        (Seq::<Seq<char>>::empty(), pos + 2),
                    ));
                    assert(ms.deep_view() + Seq::<Seq<char>>::empty() =~= ms.deep_view());
                }
                return Ok((ms, pos + 2));
            }
            let next = scan_modifier_exec(input, cs, pos + 1);
            match next {
                Some((m, j)) => {
                    let ghost old_view = ms.deep_view();
                    let ghost mv = m@;
                    ms.push(m);
                    proof {
                        assert(ms.deep_view() =~= old_view + seq![mv]);
                        let r0 = scan_mods_rest(cs@, j as int);
                        if r0 is Some {
                            let (rest, k) = r0->Some_0;
                            assert(scan_mods_rest(cs@, pos as int) == Some(
                                (seq![mv] + rest, k),
                            ));
                            assert(old_view + (seq![mv] + rest) =~= (old_view + seq![mv])
                                + rest);
                        } else {
                            assert(scan_mods_rest(cs@, pos as int) is None);
                        }
                    }
                    pos = j;
                },
                None => {
                    proof {
                        assert(scan_mods_rest(cs@, pos as int) is None);
                    }
                    return Err(syntax_err(pos + 1, "expected a modifier"));
                },
            }
        } else {
            proof {
                assert(scan_mods_rest(cs@, pos as int) is None);
            }
            return Err(syntax_err(pos, "expected ',' or ']'"));
        }
    }
}

/// Scans one line body: a name, then an optional bracketed modifier list.
fn scan_line_body_exec(input: &str, cs: &Vec<char>, i: usize) -> (r: Result<
    (String, Vec<String>, usize),
    String,
>)
    requires
        cs@ == input@,
        i <= cs.len(),
    ensures
        match r {
            Ok((n, ms, k)) => scan_line_body(cs@, i as int) == Some(
                (n@, ms.deep_view(), k as int),
            ) && i < k <= cs.len(),
            Err(_) => scan_line_body(cs@, i as int) is None,
        },
{
    let j = skip_ident(cs, i);
    if j == i {
        return Err(syntax_err(i, "expected a name"));
    }
    let name = String::from_str(input.substring_char(i, j));
    if j < cs.len() && cs[j] == '[' {
        match scan_mod_list_exec(input, cs, j + 1) {
            Ok((ms, k)) => Ok((name, ms, k)),
            Err(e) => Err(e),
        }
    } else {
        let ms: Vec<String> = Vec::new();
        proof {
            assert(ms.deep_view() =~= Seq::<Seq<char>>::empty());
        }
        Ok((name, ms, j))
    }
}

/// Parses a document: the block line, then the element lines.
///
/// Returns the block exactly when the whole input matches the document
/// grammar (`parse_spec`), and a description of the first offending place
/// otherwise.  Blank lines between elements and after the last element are
/// skipped; a returned block is always well formed.
///
/// Recognizing the grammar and building the model are one verified pass,
/// so the structural failure a separate builder would need as a fail-safe
/// (a matched node it does not know how to interpret) cannot arise here:
/// every error this function returns is a syntax error.
pub fn parse(input: &str) -> (r: Result<BEMBlock, String>)
    ensures
        r matches Ok(b) ==> parse_spec(input@) == Some(b@) && wf_block(b@),
        r is Err ==> parse_spec(input@) is None,
{
    let cs = collect_chars(input);
    let (name, modifiers, start) = match scan_line_body_exec(input, &cs, 0) {
        Ok(x) => x,
        Err(e) => {
            return Err(e);
        },
    };
    let mut elements: Vec<BEMElement> = Vec::new();
    let mut pos: usize = start;
    proof {
        assert(elements.deep_view() =~= Seq::<crate::models::ElementView>::empty());
        let r0 = scan_elements(cs@, pos as int);
        if r0 is Some {
            let (es, p) = r0->Some_0;
            assert(elements.deep_view() + es =~= es);
        }
    }
    loop
        invariant
            cs@ == input@,
            pos <= cs.len(),
            parse_spec(cs@) == (match scan_elements(cs@, pos as int) {
                Some((es, p)) => Some(
                    crate::models::BlockView {
                        name: name@,
                        modifiers: modifiers.deep_view(),
                        elements: elements.deep_view() + es,
                    },
                ),
                None => None,
            }),
        decreases cs.len() - pos,
    {
        if pos >= cs.len() {
            let b = BEMBlock { name, modifiers, elements };
            proof {
                assert(scan_elements(cs@, pos as int) == Some(
                    (Seq::<crate::models::ElementView>::empty(), pos as int),
                ));
                assert(b@.elements =~= b@.elements + Seq::<crate::models::ElementView>::empty());
                assert(parse_spec(cs@) == Some(b@));
                lemma_parse_spec_wf(cs@, b@);
            }
            return Ok(b);
        }
        if cs[pos] != '\n' {
            proof {
                assert(scan_elements(cs@, pos as int) is None);
            }
            return Err(syntax_err(pos, "expected a newline or the end of the input"));
        }
        let j = skip_nl(&cs, pos);
        if j >= cs.len() {
            let b = BEMBlock { name, modifiers, elements };
            proof {
                assert(scan_elements(cs@, pos as int) == Some(
                    (Seq::<crate::models::ElementView>::empty(), j as int),
                ));
                assert(b@.elements =~= b@.elements + Seq::<crate::models::ElementView>::empty());
                assert(parse_spec(cs@) == Some(b@));
                lemma_parse_spec_wf(cs@, b@);
            }
            return Ok(b);
        }
        match scan_line_body_exec(input, &cs, j) {
            Ok((n, ms, k)) => {
                let ghost old_view = elements.deep_view();
                let ghost ev = crate::models::ElementView { name: n@, modifiers: ms.deep_view() };
                elements.push(BEMElement { name: n, modifiers: ms });
                proof {
                    assert(elements.deep_view() =~= old_view + seq![ev]);
                    let r0 = scan_elements(cs@, k as int);
                    if r0 is Some {
                        let (es, p) = r0->Some_0;
                        assert(scan_elements(cs@, pos as int) == Some((seq![ev] + es, p)));
                        assert(old_view + (seq![ev] + es) =~= (old_view + seq![ev]) + es);
                    } else {
                        assert(scan_elements(cs@, pos as int) is None);
                    }
                }
                pos = k;
            },
            Err(e) => {
                proof {
                    assert(scan_elements(cs@, pos as int) is None);
                }
                return Err(e);
            },
        }
    }
}

} // verus!

//! The grammar of the notation, stated as specification-level functions over
//! character sequences.  These functions are the reference that the
//! executable parser is proved against.
//!
//! The grammar, as BNF:
//!
//! ```text
//! identifier    = (alnum | '-')+
//! modifier      = ws* identifier ws*
//! modifier-list = '[' modifier (',' modifier)* ','? ']' | '[' ']'
//! line-body     = identifier modifier-list?
//! document      = line-body (newline+ line-body)* newline* EOF
//! ```
//!
//! The first line body of a document is the block; every later one is an
//! element, in source order.  `ws` is a space, tab, carriage return or
//! newline, so a modifier list may spread over several lines.  Runs of
//! newlines separate lines, so blank lines between elements and after the
//! last element are skipped.
//!
//! Each scanning function takes a position and returns the parsed value
//! together with the position just past it, or `None` when the input does
//! not match; the scan of a whole document succeeds only when it ends
//! exactly at the end of the input.

use vstd::prelude::*;

use crate::models::{is_ident_char, wf_name, wf_modifiers, wf_element, wf_block};
use crate::models::{BlockView, ElementView};

verus! {

/// Whitespace that may surround a modifier inside a bracketed list.
pub open spec fn is_ws_char(c: char) -> bool {
    c == ' ' || c == '\t' || c == '\r' || c == '\n'
}

/// The end of the run of identifier characters that starts at `i`.
pub open spec fn ident_end(s: Seq<char>, i: int) -> int
    decreases s.len() - i when 0 <= i <= s.len()
{
    if i < s.len() && is_ident_char(s[i]) {
        ident_end(s, i + 1)
    } else {
        i
    }
}

/// The end of the run of whitespace characters that starts at `i`.
pub open spec fn ws_end(s: Seq<char>, i: int) -> int
    decreases s.len() - i when 0 <= i <= s.len()
{
    if i < s.len() && is_ws_char(s[i]) {
        ws_end(s, i + 1)
    } else {
        i
    }
}

/// The end of the run of newline characters that starts at `i`.
pub open spec fn nl_end(s: Seq<char>, i: int) -> int
    decreases s.len() - i when 0 <= i <= s.len()
{
    if i < s.len() && s[i] == '\n' {
        nl_end(s, i + 1)
    } else {
        i
    }
}

pub proof fn lemma_ident_end_bounds(s: Seq<char>, i: int)
    requires
        0 <= i <= s.len(),
    ensures
        i <= ident_end(s, i) <= s.len(),
        forall|k: int| i <= k < ident_end(s, i) ==> is_ident_char(#[trigger] s[k]),
        ident_end(s, i) < s.len() ==> !is_ident_char(s[ident_end(s, i)]),
    decreases s.len() - i,
{
    if i < s.len() && is_ident_char(s[i]) {
        lemma_ident_end_bounds(s, i + 1);
    }
}

pub proof fn lemma_ws_end_bounds(s: Seq<char>, i: int)
    requires
        0 <= i <= s.len(),
    ensures
        i <= ws_end(s, i) <= s.len(),
        ws_end(s, i) < s.len() ==> !is_ws_char(s[ws_end(s, i)]),
    decreases s.len() - i,
{
    if i < s.len() && is_ws_char(s[i]) {
        lemma_ws_end_bounds(s, i + 1);
    }
}

pub proof fn lemma_nl_end_bounds(s: Seq<char>, i: int)
    requires
        0 <= i <= s.len(),
    ensures
        i <= nl_end(s, i) <= s.len(),
        nl_end(s, i) < s.len() ==> s[nl_end(s, i)] != '\n',
    decreases s.len() - i,
{
    if i < s.len() && s[i] == '\n' {
        lemma_nl_end_bounds(s, i + 1);
    }
}

/// One modifier: optional whitespace, an identifier, optional whitespace.
/// Returns the identifier and the position after the trailing whitespace.
pub open spec fn scan_modifier(s: Seq<char>, i: int) -> Option<(Seq<char>, int)> {
    let a = ws_end(s, i);
    let b = ident_end(s, a);
    if b == a {
        None
    } else {
        Some((s.subrange(a, b), ws_end(s, b)))
    }
}

pub proof fn lemma_scan_modifier_bounds(s: Seq<char>, i: int)
    requires
        0 <= i <= s.len(),
    ensures
        scan_modifier(s, i) matches Some((m, j)) ==> i < j <= s.len() && wf_name(m),
{
    lemma_ws_end_bounds(s, i);
    let a = ws_end(s, i);
    lemma_ident_end_bounds(s, a);
    let b = ident_end(s, a);
    if b != a {
        lemma_ws_end_bounds(s, b);
    }
}

/// The rest of a modifier list, entered just after a completed modifier:
/// either the closing bracket, or a comma followed by another modifier or by
/// the closing bracket (a trailing comma).  Returns the remaining modifiers
/// and the position after the closing bracket.
pub open spec fn scan_mods_rest(s: Seq<char>, i: int) -> Option<(Seq<Seq<char>>, int)>
    decreases s.len() - i when 0 <= i <= s.len()
{
    if i < s.len() && s[i] == ']' {
        Some((Seq::empty(), i + 1))
    } else if i < s.len() && s[i] == ',' {
        if i + 1 < s.len() && s[i + 1] == ']' {
            Some((Seq::empty(), i + 2))
        } else {
            match scan_modifier(s, i + 1) {
                Some((m, j)) => {
                    proof {
                        lemma_scan_modifier_bounds(s, i + 1);
                    }
                    match scan_mods_rest(s, j) {
                        Some((ms, k)) => Some((seq![m] + ms, k)),
                        None => None,
                    }
                },
                None => None,
            }
        }
    } else {
        None
    }
}

/// A whole modifier list, entered just after the opening bracket: either the
/// closing bracket at once, or a first modifier followed by the rest of the
/// list.  Returns the modifiers and the position after the closing bracket.
pub open spec fn scan_mod_list(s: Seq<char>, i: int) -> Option<(Seq<Seq<char>>, int)> {
    if i < s.len() && s[i] == ']' {
        Some((Seq::empty(), i + 1))
    } else {
        match scan_modifier(s, i) {
            Some((m, j)) => match scan_mods_rest(s, j) {
                Some((ms, k)) => Some((seq![m] + ms, k)),
                None => None,
            },
            None => None,
        }
    }
}

pub proof fn lemma_scan_mods_rest_bounds(s: Seq<char>, i: int)
    requires
        0 <= i <= s.len(),
    ensures
        scan_mods_rest(s, i) matches Some((ms, k)) ==> i < k <= s.len() && wf_modifiers(ms),
    decreases s.len() - i,
{
    if i < s.len() && s[i] == ']' {
    } else if i < s.len() && s[i] == ',' {
        if i + 1 < s.len() && s[i + 1] == ']' {
        } else {
            lemma_scan_modifier_bounds(s, i + 1);
            if let Some((m, j)) = scan_modifier(s, i + 1) {
                lemma_scan_mods_rest_bounds(s, j);
                if let Some((ms, k)) = scan_mods_rest(s, j) {
                    assert forall|x: int| 0 <= x < (seq![m] + ms).len() implies wf_name(
                        #[trigger] (seq![m] + ms)[x],
                    ) by {
                        if x > 0 {
                            assert((seq![m] + ms)[x] == ms[x - 1]);
                        }
                    }
                }
            }
        }
    }
}

pub proof fn lemma_scan_mod_list_bounds(s: Seq<char>, i: int)
    requires
        0 <= i <= s.len(),
    ensures
        scan_mod_list(s, i) matches Some((ms, k)) ==> i < k <= s.len() && wf_modifiers(ms),
{
    lemma_scan_modifier_bounds(s, i);
    if i < s.len() && s[i] == ']' {
    } else {
        if let Some((m, j)) = scan_modifier(s, i) {
            lemma_scan_mods_rest_bounds(s, j);
            if let Some((ms, k)) = scan_mods_rest(s, j) {
                assert forall|x: int| 0 <= x < (seq![m] + ms).len() implies wf_name(
                    #[trigger] (seq![m] + ms)[x],
                ) by {
                    if x > 0 {
                        assert((seq![m] + ms)[x] == ms[x - 1]);
                    }
                }
            }
        }
    }
}

/// One line body: an identifier, then an optional bracketed modifier list.
/// Returns the name, the modifiers, and the position after the line body.
pub open spec fn scan_line_body(s: Seq<char>, i: int) -> Option<(Seq<char>, Seq<Seq<char>>, int)> {
    let j = ident_end(s, i);
    if j == i {
        None
    } else if j < s.len() && s[j] == '[' {
        match scan_mod_list(s, j + 1) {
            Some((ms, k)) => Some((s.subrange(i, j), ms, k)),
            None => None,
        }
    } else {
        Some((s.subrange(i, j), Seq::empty(), j))
    }
}

pub proof fn lemma_scan_line_body_bounds(s: Seq<char>, i: int)
    requires
        0 <= i <= s.len(),
    ensures
        scan_line_body(s, i) matches Some((n, ms, k)) ==> i < k <= s.len() && wf_name(n)
            && wf_modifiers(ms),
{
    lemma_ident_end_bounds(s, i);
    let j = ident_end(s, i);
    if j != i && j < s.len() && s[j] == '[' {
        lemma_scan_mod_list_bounds(s, j + 1);
    }
}

/// The element lines that follow a line body: runs of newlines, each
/// followed by either the end of the input or another line body.  Succeeds
/// only when the scan reaches the end of the input.
pub open spec fn scan_elements(s: Seq<char>, i: int) -> Option<(Seq<ElementView>, int)>
    decreases s.len() - i when 0 <= i <= s.len()
{
    if i >= s.len() {
        Some((Seq::empty(), i))
    } else if s[i] == '\n' {
        let j = nl_end(s, i);
        proof {
            lemma_nl_end_bounds(s, i);
        }
        if j >= s.len() {
            Some((Seq::empty(), j))
        } else {
            match scan_line_body(s, j) {
                Some((n, ms, k)) => {
                    proof {
                        lemma_scan_line_body_bounds(s, j);
                    }
                    match scan_elements(s, k) {
                        Some((es, p)) => Some(
                            (seq![ElementView { name: n, modifiers: ms }] + es, p),
                        ),
                        None => None,
                    }
                },
                None => None,
            }
        }
    } else {
        None
    }
}

pub proof fn lemma_scan_elements_bounds(s: Seq<char>, i: int)
    requires
        0 <= i <= s.len(),
    ensures
        scan_elements(s, i) matches Some((es, p)) ==> i <= p <= s.len() && forall|x: int|
            0 <= x < es.len() ==> wf_element(#[trigger] es[x]),
    decreases s.len() - i,
{
    if i >= s.len() {
    } else if s[i] == '\n' {
        let j = nl_end(s, i);
        lemma_nl_end_bounds(s, i);
        if j < s.len() {
            lemma_scan_line_body_bounds(s, j);
            if let Some((n, ms, k)) = scan_line_body(s, j) {
                lemma_scan_elements_bounds(s, k);
                if let Some((es, p)) = scan_elements(s, k) {
                    let e0 = ElementView { name: n, modifiers: ms };
                    assert forall|x: int| 0 <= x < (seq![e0] + es).len() implies wf_element(
                        #[trigger] (seq![e0] + es)[x],
                    ) by {
                        if x > 0 {
                            assert((seq![e0] + es)[x] == es[x - 1]);
                        }
                    }
                }
            }
        }
    }
}

/// A whole document: the block's line body, then the element lines, which
/// must reach the end of the input.
pub open spec fn parse_spec(s: Seq<char>) -> Option<BlockView> {
    match scan_line_body(s, 0) {
        Some((n, ms, i)) => match scan_elements(s, i) {
            Some((es, p)) => Some(BlockView { name: n, modifiers: ms, elements: es }),
            None => None,
        },
        None => None,
    }
}

/// Every block the grammar produces is well formed: its name and modifiers,
/// and those of each element, match the identifier grammar, and no modifier
/// entry is empty.
pub proof fn lemma_parse_spec_wf(s: Seq<char>, v: BlockView)
    requires
        parse_spec(s) == Some(v),
    ensures
        wf_block(v),
{
    lemma_scan_line_body_bounds(s, 0);
    if let Some((n, ms, i)) = scan_line_body(s, 0) {
        lemma_scan_elements_bounds(s, i);
    }
}

} // verus!

//! The JSON wire format, stated as specification-level functions.
//!
//! `json_of_block` renders a block as one JSON object with the fields
//! `name` (a string), `modifiers` (an array of strings) and `elements` (an
//! array of objects with `name` and `modifiers`), in exactly that order and
//! with no added whitespace.
//!
//! `from_json_spec` is the reference for reading that shape back.  It is
//! deliberately stricter than a general JSON reader, and the executable
//! codec is proved to follow it exactly:
//! - the three fields must appear in the order written above; a field that
//!   is missing or out of place fails the scan,
//! - fields other than the three are not accepted,
//! - whitespace may stand between any two tokens,
//! - inside a string, `\"`, `\\`, `\/`, `\n`, `\t` and `\r` are understood;
//!   any other use of a backslash fails the scan, and any character other
//!   than `"` and `\` stands for itself.

use vstd::prelude::*;

use crate::grammar::ws_end;
use crate::grammar::lemma_ws_end_bounds;
use crate::models::{BlockView, ElementView};

verus! {

/// The characters of the key of the `name` field.
pub open spec fn name_chars() -> Seq<char> {
    seq!['n', 'a', 'm', 'e']
}

/// The characters of the key of the `modifiers` field.
pub open spec fn modifiers_chars() -> Seq<char> {
    seq!['m', 'o', 'd', 'i', 'f', 'i', 'e', 'r', 's']
}

/// The characters of the key of the `elements` field.
pub open spec fn elements_chars() -> Seq<char> {
    seq!['e', 'l', 'e', 'm', 'e', 'n', 't', 's']
}

// ------------------------------------------------------------------
// Rendering
// ------------------------------------------------------------------

/// A string in quotes.  The renderer is used on identifier strings only,
/// which contain nothing that would need escaping.
pub open spec fn json_quote(s: Seq<char>) -> Seq<char> {
    seq!['"'] + s + seq!['"']
}

/// A key in quotes followed by a colon.
pub open spec fn json_key(k: Seq<char>) -> Seq<char> {
    json_quote(k) + seq![':']
}

/// The items of an array of strings after the first: a comma before each.
pub open spec fn json_strings_rest(ms: Seq<Seq<char>>) -> Seq<char>
    decreases ms.len(),
{
    if ms.len() == 0 {
        Seq::empty()
    } else {
        seq![','] + json_quote(ms[0]) + json_strings_rest(ms.drop_first())
    }
}

/// The items of an array of strings.
pub open spec fn json_string_items(ms: Seq<Seq<char>>) -> Seq<char> {
    if ms.len() == 0 {
        Seq::empty()
    } else {
        json_quote(ms[0]) + json_strings_rest(ms.drop_first())
    }
}

/// An array of strings.
pub open spec fn json_string_array(ms: Seq<Seq<char>>) -> Seq<char> {
    seq!['['] + json_string_items(ms) + seq![']']
}

/// One element as a JSON object: `name`, then `modifiers`.
pub open spec fn json_of_element(e: ElementView) -> Seq<char> {
    seq!['{'] + json_key(name_chars()) + json_quote(e.name) + seq![','] + json_key(
        modifiers_chars(),
    ) + json_string_array(e.modifiers) + seq!['}']
}

/// The items of an array of elements after the first: a comma before each.
pub open spec fn json_elements_rest(es: Seq<ElementView>) -> Seq<char>
    decreases es.len(),
{
    if es.len() == 0 {
        Seq::empty()
    } else {
        seq![','] + json_of_element(es[0]) + json_elements_rest(es.drop_first())
    }
}

/// The items of an array of elements.
pub open spec fn json_element_items(es: Seq<ElementView>) -> Seq<char> {
    if es.len() == 0 {
        Seq::empty()
    } else {
        json_of_element(es[0]) + json_elements_rest(es.drop_first())
    }
}

/// An array of elements.
pub open spec fn json_element_array(es: Seq<ElementView>) -> Seq<char> {
    seq!['['] + json_element_items(es) + seq![']']
}

/// A block as a JSON object: `name`, then `modifiers`, then `elements`.
pub open spec fn json_of_block(b: BlockView) -> Seq<char> {
    seq!['{'] + json_key(name_chars()) + json_quote(b.name) + seq![','] + json_key(
        modifiers_chars(),
    ) + json_string_array(b.modifiers) + seq![','] + json_key(elements_chars())
        + json_element_array(b.elements) + seq!['}']
}

/// Appending one more string to an array's items adds a comma and the
/// quoted string at the end.
pub proof fn lemma_json_strings_rest_push(ms: Seq<Seq<char>>, m: Seq<char>)
    ensures
        json_strings_rest(ms.push(m)) == json_strings_rest(ms) + seq![','] + json_quote(m),
    decreases ms.len(),
{
    if ms.len() == 0 {
        assert(ms.push(m).drop_first() =~= Seq::<Seq<char>>::empty());
        assert(json_strings_rest(Seq::<Seq<char>>::empty()) =~= Seq::<char>::empty());
        assert(ms.push(m)[0] == m);
        assert(json_strings_rest(ms.push(m)) =~= json_strings_rest(ms) + seq![','] + json_quote(
            m,
        ));
    } else {
        assert(ms.push(m).drop_first() =~= ms.drop_first().push(m));
        lemma_json_strings_rest_push(ms.drop_first(), m);
        assert(ms.push(m)[0] == ms[0]);
        assert(json_strings_rest(ms.push(m)) == seq![','] + json_quote(ms[0])
            + json_strings_rest(ms.drop_first().push(m)));
        assert(json_strings_rest(ms.push(m)) =~= json_strings_rest(ms) + seq![','] + json_quote(
            m,
        ));
    }
}

/// Appending one more element to an array's items adds a comma and the
/// rendered element at the end.
pub proof fn lemma_json_elements_rest_push(es: Seq<ElementView>, e: ElementView)
    ensures
        json_elements_rest(es.push(e)) == json_elements_rest(es) + seq![','] + json_of_element(
            e,
        ),
    decreases es.len(),
{
    if es.len() == 0 {
        assert(es.push(e).drop_first() =~= Seq::<ElementView>::empty());
        assert(json_elements_rest(Seq::<ElementView>::empty()) =~= Seq::<char>::empty());
        assert(es.push(e)[0] == e);
        assert(json_elements_rest(es.push(e)) =~= json_elements_rest(es) + seq![',']
            + json_of_element(e));
    } else {
        assert(es.push(e).drop_first() =~= es.drop_first().push(e));
        lemma_json_elements_rest_push(es.drop_first(), e);
        assert(es.push(e)[0] == es[0]);
        assert(json_elements_rest(es.push(e)) == seq![','] + json_of_element(es[0])
            + json_elements_rest(es.drop_first().push(e)));
        assert(json_elements_rest(es.push(e)) =~= json_elements_rest(es) + seq![',']
            + json_of_element(e));
    }
}

// ------------------------------------------------------------------
// Scanning
// ------------------------------------------------------------------

/// What a backslash escape stands for, if it is understood.
pub open spec fn unescape(c: char) -> Option<char> {
    if c == '"' {
        Some('"')
    } else if c == '\\' {
        Some('\\')
    } else if c == '/' {
        Some('/')
    } else if c == 'n' {
        Some('\n')
    } else if c == 't' {
        Some('\t')
    } else if c == 'r' {
        Some('\r')
    } else {
        None
    }
}

/// The body of a string, entered just after the opening quote: characters
/// and escapes up to the closing quote.  Returns the characters the string
/// stands for and the position after the closing quote.
pub open spec fn scan_jstring_body(s: Seq<char>, i: int) -> Option<(Seq<char>, int)>
    decreases s.len() - i when 0 <= i <= s.len()
{
    if i >= s.len() {
        None
    } else if s[i] == '"' {
        Some((Seq::empty(), i + 1))
    } else if s[i] == '\\' {
        if i + 1 < s.len() {
            match unescape(s[i + 1]) {
                Some(c) => match scan_jstring_body(s, i + 2) {
                    Some((t, j)) => Some((seq![c] + t, j)),
                    None => None,
                },
                None => None,
            }
        } else {
            None
        }
    } else {
        match scan_jstring_body(s, i + 1) {
            Some((t, j)) => Some((seq![s[i]] + t, j)),
            None => None,
        }
    }
}

/// A whole string: an opening quote, the body, the closing quote.
pub open spec fn scan_jstring(s: Seq<char>, i: int) -> Option<(Seq<char>, int)> {
    if i < s.len() && s[i] == '"' {
        scan_jstring_body(s, i + 1)
    } else {
        None
    }
}

pub proof fn lemma_scan_jstring_body_bounds(s: Seq<char>, i: int)
    requires
        0 <= i <= s.len(),
    ensures
        scan_jstring_body(s, i) matches Some((t, j)) ==> i < j <= s.len(),
    decreases s.len() - i,
{
    if i >= s.len() {
    } else if s[i] == '"' {
    } else if s[i] == '\\' {
        if i + 1 < s.len() {
            lemma_scan_jstring_body_bounds(s, i + 2);
        }
    } else {
        lemma_scan_jstring_body_bounds(s, i + 1);
    }
}

pub proof fn lemma_scan_jstring_bounds(s: Seq<char>, i: int)
    requires
        0 <= i <= s.len(),
    ensures
        scan_jstring(s, i) matches Some((t, j)) ==> i + 1 < j <= s.len(),
{
    if i < s.len() && s[i] == '"' {
        lemma_scan_jstring_body_bounds(s, i + 1);
    }
}

/// A key: a string that must spell `k`, whitespace, a colon, whitespace.
/// Returns the position after the colon and the whitespace behind it.
pub open spec fn scan_key(s: Seq<char>, i: int, k: Seq<char>) -> Option<int>
    recommends
        0 <= i <= s.len(),
{
    match scan_jstring(s, i) {
        Some((c, j)) => if c == k {
            let a = ws_end(s, j);
            if a < s.len() && s[a] == ':' {
                Some(ws_end(s, a + 1))
            } else {
                None
            }
        } else {
            None
        },
        None => None,
    }
}

pub proof fn lemma_scan_key_bounds(s: Seq<char>, i: int, k: Seq<char>)
    requires
        0 <= i <= s.len(),
    ensures
        scan_key(s, i, k) matches Some(a) ==> i < a <= s.len(),
{
    lemma_scan_jstring_bounds(s, i);
    if let Some((c, j)) = scan_jstring(s, i) {
        lemma_ws_end_bounds(s, j);
        let a = ws_end(s, j);
        if a < s.len() && s[a] == ':' {
            lemma_ws_end_bounds(s, a + 1);
        }
    }
}

/// The rest of an array of strings, entered after an item and the
/// whitespace behind it: either the closing bracket, or a comma and
/// another item.
pub open spec fn scan_jstrings_rest(s: Seq<char>, i: int) -> Option<(Seq<Seq<char>>, int)>
    decreases s.len() - i when 0 <= i <= s.len()
{
    if i < s.len() && s[i] == ']' {
        Some((Seq::empty(), i + 1))
    } else if i < s.len() && s[i] == ',' {
        let j = ws_end(s, i + 1);
        proof {
            lemma_ws_end_bounds(s, i + 1);
        }
        match scan_jstring(s, j) {
            Some((m, k)) => {
                proof {
                    lemma_scan_jstring_bounds(s, j);
                    lemma_ws_end_bounds(s, k);
                }
                match scan_jstrings_rest(s, ws_end(s, k)) {
                    Some((ms, p)) => Some((seq![m] + ms, p)),
                    None => None,
                }
            },
            None => None,
        }
    } else {
        None
    }
}

/// A whole array of strings.
pub open spec fn scan_jstring_array(s: Seq<char>, i: int) -> Option<(Seq<Seq<char>>, int)>
    recommends
        0 <= i <= s.len(),
{
    if i < s.len() && s[i] == '[' {
        let j = ws_end(s, i + 1);
        if j < s.len() && s[j] == ']' {
            Some((Seq::empty(), j + 1))
        } else {
            match scan_jstring(s, j) {
                Some((m, k)) => match scan_jstrings_rest(s, ws_end(s, k)) {
                    Some((ms, p)) => Some((seq![m] + ms, p)),
                    None => None,
                },
                None => None,
            }
        }
    } else {
        None
    }
}

pub proof fn lemma_scan_jstrings_rest_bounds(s: Seq<char>, i: int)
    requires
        0 <= i <= s.len(),
    ensures
        scan_jstrings_rest(s, i) matches Some((ms, p)) ==> i < p <= s.len(),
    decreases s.len() - i,
{
    if i < s.len() && s[i] == ']' {
    } else if i < s.len() && s[i] == ',' {
        let j = ws_end(s, i + 1);
        lemma_ws_end_bounds(s, i + 1);
        lemma_scan_jstring_bounds(s, j);
        if let Some((m, k)) = scan_jstring(s, j) {
            lemma_ws_end_bounds(s, k);
            lemma_scan_jstrings_rest_bounds(s, ws_end(s, k));
        }
    }
}

pub proof fn lemma_scan_jstring_array_bounds(s: Seq<char>, i: int)
    requires
        0 <= i <= s.len(),
    ensures
        scan_jstring_array(s, i) matches Some((ms, p)) ==> i < p <= s.len(),
{
    if i < s.len() && s[i] == '[' {
        let j = ws_end(s, i + 1);
        lemma_ws_end_bounds(s, i + 1);
        lemma_scan_jstring_bounds(s, j);
        if let Some((m, k)) = scan_jstring(s, j) {
            lemma_ws_end_bounds(s, k);
            lemma_scan_jstrings_rest_bounds(s, ws_end(s, k));
        }
    }
}

/// One element: an object with the fields `name` and `modifiers`, in that
/// order.
pub open spec fn scan_jelement(s: Seq<char>, i: int) -> Option<(ElementView, int)>
    recommends
        0 <= i <= s.len(),
{
    if i < s.len() && s[i] == '{' {
        let a = ws_end(s, i + 1);
        match scan_key(s, a, name_chars()) {
            Some(b) => match scan_jstring(s, b) {
                Some((n, c)) => {
                    let d = ws_end(s, c);
                    if d < s.len() && s[d] == ',' {
                        let e = ws_end(s, d + 1);
                        match scan_key(s, e, modifiers_chars()) {
                            Some(f) => match scan_jstring_array(s, f) {
                                Some((ms, g)) => {
                                    let h = ws_end(s, g);
                                    if h < s.len() && s[h] == '}' {
                                        Some((ElementView { name: n, modifiers: ms }, h + 1))
                                    } else {
                                        None
                                    }
                                },
                                None => None,
                            },
                            None => None,
                        }
                    } else {
                        None
                    }
                },
                None => None,
            },
            None => None,
        }
    } else {
        None
    }
}

pub proof fn lemma_scan_jelement_bounds(s: Seq<char>, i: int)
    requires
        0 <= i <= s.len(),
    ensures
        scan_jelement(s, i) matches Some((e, p)) ==> i < p <= s.len(),
{
    if i < s.len() && s[i] == '{' {
        let a = ws_end(s, i + 1);
        lemma_ws_end_bounds(s, i + 1);
        lemma_scan_key_bounds(s, a, name_chars());
        if let Some(b) = scan_key(s, a, name_chars()) {
            lemma_scan_jstring_bounds(s, b);
            if let Some((n, c)) = scan_jstring(s, b) {
                lemma_ws_end_bounds(s, c);
                let d = ws_end(s, c);
                if d < s.len() && s[d] == ',' {
                    let e = ws_end(s, d + 1);
                    lemma_ws_end_bounds(s, d + 1);
                    lemma_scan_key_bounds(s, e, modifiers_chars());
                    if let Some(f) = scan_key(s, e, modifiers_chars()) {
                        lemma_scan_jstring_array_bounds(s, f);
                        if let Some((ms, g)) = scan_jstring_array(s, f) {
                            lemma_ws_end_bounds(s, g);
                        }
                    }
                }
            }
        }
    }
}

/// The rest of an array of elements, entered after an item and the
/// whitespace behind it.
pub open spec fn scan_jelements_rest(s: Seq<char>, i: int) -> Option<(Seq<ElementView>, int)>
    decreases s.len() - i when 0 <= i <= s.len()
{
    if i < s.len() && s[i] == ']' {
        Some((Seq::empty(), i + 1))
    } else if i < s.len() && s[i] == ',' {
        let j = ws_end(s, i + 1);
        proof {
            lemma_ws_end_bounds(s, i + 1);
        }
        match scan_jelement(s, j) {
            Some((e, k)) => {
                proof {
                    lemma_scan_jelement_bounds(s, j);
                    lemma_ws_end_bounds(s, k);
                }
                match scan_jelements_rest(s, ws_end(s, k)) {
                    Some((es, p)) => Some((seq![e] + es, p)),
                    None => None,
                }
            },
            None => None,
        }
    } else {
        None
    }
}

/// A whole array of elements.
pub open spec fn scan_jelement_array(s: Seq<char>, i: int) -> Option<(Seq<ElementView>, int)>
    recommends
        0 <= i <= s.len(),
{
    if i < s.len() && s[i] == '[' {
        let j = ws_end(s, i + 1);
        if j < s.len() && s[j] == ']' {
            Some((Seq::empty(), j + 1))
        } else {
            match scan_jelement(s, j) {
                Some((e, k)) => match scan_jelements_rest(s, ws_end(s, k)) {
                    Some((es, p)) => Some((seq![e] + es, p)),
                    None => None,
                },
                None => None,
            }
        }
    } else {
        None
    }
}

/// A whole document: one object with the fields `name`, `modifiers` and
/// `elements`, in that order, with nothing but whitespace around it.
pub open spec fn from_json_spec(s: Seq<char>) -> Option<BlockView> {
    let i = ws_end(s, 0);
    if i < s.len() && s[i] == '{' {
        let a = ws_end(s, i + 1);
        match scan_key(s, a, name_chars()) {
            Some(b) => match scan_jstring(s, b) {
                Some((n, c)) => {
                    let d = ws_end(s, c);
                    if d < s.len() && s[d] == ',' {
                        let e = ws_end(s, d + 1);
                        match scan_key(s, e, modifiers_chars()) {
                            Some(f) => match scan_jstring_array(s, f) {
                                Some((ms, g)) => {
                                    let h = ws_end(s, g);
                                    if h < s.len() && s[h] == ',' {
                                        let p = ws_end(s, h + 1);
                                        match scan_key(s, p, elements_chars()) {
                                            Some(q) => match scan_jelement_array(s, q) {
                                                Some((es, t)) => {
                                                    let u = ws_end(s, t);
                                                    if u < s.len() && s[u] == '}' {
                                                        if ws_end(s, u + 1) == s.len() {
                                                            Some(
                                                                BlockView {
                                                                    name: n,
                                                                    modifiers: ms,
                                                                    elements: es,
                                                                },
                                                            )
                                                        } else {
                                                            None
                                                        }
                                                    } else {
                                                        None
                                                    }
                                                },
                                                None => None,
                                            },
                                            None => None,
                                        }
                                    } else {
                                        None
                                    }
                                },
                                None => None,
                            },
                            None => None,
                        }
                    } else {
                        None
                    }
                },
                None => None,
            },
            None => None,
        }
    } else {
        None
    }
}

} // verus!

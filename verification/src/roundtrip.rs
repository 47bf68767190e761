//! The round-trip law: reading back the rendered JSON of any well-formed
//! block gives exactly that block.  Together with the contracts of `parse`,
//! `to_json` and `from_json`, this states that every block the parser can
//! produce survives serialization and deserialization unchanged.

use vstd::prelude::*;

use crate::grammar::ws_end;
use crate::json::{
    elements_chars, from_json_spec, json_element_array, json_elements_rest, json_key,
    json_of_block, json_of_element, json_quote, json_string_array, json_strings_rest, json_string_items,
    json_element_items, modifiers_chars, name_chars, scan_jelement, scan_jelement_array,
    scan_jelements_rest, scan_jstring, scan_jstring_array, scan_jstring_body, scan_jstrings_rest,
    scan_key,
};
use crate::models::{is_ident_char, wf_block, wf_element, wf_modifiers, wf_name, BlockView,
    ElementView};

verus! {

/// Text that contains neither a quote nor a backslash, so that it reads
/// back from a JSON string exactly as it was written.
pub open spec fn escape_free(t: Seq<char>) -> bool {
    forall|k: int| 0 <= k < t.len() ==> (#[trigger] t[k]) != '"' && t[k] != '\\'
}

/// Identifier characters need no escaping.
proof fn lemma_ident_escape_free(t: Seq<char>)
    requires
        forall|k: int| 0 <= k < t.len() ==> is_ident_char(#[trigger] t[k]),
    ensures
        escape_free(t),
{
    assert forall|k: int| 0 <= k < t.len() implies (#[trigger] t[k]) != '"' && t[k] != '\\' by {
        assert(is_ident_char(t[k]));
        assert(('"' as u32) == 34);
        assert(('\\' as u32) == 92);
    }
}

/// Scanning a string body over escape-free text stops at the closing quote
/// and returns the text unchanged.
proof fn lemma_scan_body_plain(s: Seq<char>, i: int, t: Seq<char>)
    requires
        0 <= i,
        i + t.len() + 1 <= s.len(),
        s.subrange(i, i + t.len()) == t,
        s[i + t.len()] == '"',
        escape_free(t),
    ensures
        scan_jstring_body(s, i) == Some((t, i + t.len() + 1)),
    decreases t.len(),
{
    if t.len() == 0 {
        assert(s[i] == '"');
        assert(t =~= Seq::<char>::empty());
    } else {
        assert(s[i] == t[0]) by {
            assert(s.subrange(i, i + t.len())[0] == s[i]);
        }
        assert(t[0] != '"' && t[0] != '\\');
        let t2 = t.drop_first();
        assert(s.subrange(i + 1, i + 1 + t2.len()) =~= t2) by {
            assert(forall|k: int|
                0 <= k < t2.len() ==> s.subrange(i + 1, i + 1 + t2.len())[k] == s[i + 1 + k]
                    && #[trigger] t2[k] == t[k + 1] && t[k + 1] == s.subrange(i, i + t.len())[k
                    + 1]);
        }
        assert(escape_free(t2)) by {
            assert(forall|k: int| 0 <= k < t2.len() ==> #[trigger] t2[k] == t[k + 1]);
        }
        lemma_scan_body_plain(s, i + 1, t2);
        assert(seq![t[0]] + t2 =~= t);
    }
}

/// Scanning a rendered quoted string yields its contents and the position
/// after the closing quote.
proof fn lemma_scan_jstring_at(s: Seq<char>, i: int, t: Seq<char>)
    requires
        0 <= i,
        i + t.len() + 2 <= s.len(),
        s.subrange(i, i + t.len() + 2) == json_quote(t),
        escape_free(t),
    ensures
        scan_jstring(s, i) == Some((t, i + t.len() + 2)),
{
    assert(s[i] == '"') by {
        assert(s.subrange(i, i + t.len() + 2)[0] == s[i]);
        assert(json_quote(t)[0] == '"');
    }
    assert(s.subrange(i + 1, i + 1 + t.len()) =~= t) by {
        assert(forall|k: int|
            0 <= k < t.len() ==> s.subrange(i + 1, i + 1 + t.len())[k] == s[i + 1 + k]
                && s.subrange(i, i + t.len() + 2)[k + 1] == s[i + 1 + k] && json_quote(t)[k + 1]
                == t[k]);
    }
    assert(s[i + 1 + t.len()] == '"') by {
        assert(s.subrange(i, i + t.len() + 2)[t.len() as int + 1] == s[i + 1 + t.len()]);
        assert(json_quote(t)[t.len() as int + 1] == '"');
    }
    lemma_scan_body_plain(s, i + 1, t);
}

/// Whitespace skipping does not move when it stands at the end of the
/// input or at a character that is not whitespace.
proof fn lemma_ws_noop(s: Seq<char>, i: int)
    requires
        0 <= i <= s.len(),
        i == s.len() || !crate::grammar::is_ws_char(s[i]),
    ensures
        ws_end(s, i) == i,
{
}

/// Scanning a rendered key yields the position just after its colon,
/// provided the character standing there is not whitespace.
proof fn lemma_scan_key_at(s: Seq<char>, i: int, k: Seq<char>)
    requires
        0 <= i,
        i + k.len() + 3 <= s.len(),
        s.subrange(i, i + k.len() + 3) == json_key(k),
        escape_free(k),
        i + k.len() + 3 == s.len() || !crate::grammar::is_ws_char(s[i + k.len() + 3]),
    ensures
        scan_key(s, i, k) == Some(i + k.len() + 3),
{
    assert(s.subrange(i, i + k.len() + 2) =~= json_quote(k)) by {
        assert(forall|k2: int|
            0 <= k2 < k.len() + 2 ==> s.subrange(i, i + k.len() + 2)[k2] == s[i + k2]
                && s.subrange(i, i + k.len() + 3)[k2] == s[i + k2] && json_key(k)[k2]
                == json_quote(k)[k2]);
    }
    lemma_scan_jstring_at(s, i, k);
    let j = i + k.len() + 2;
    assert(s[j] == ':') by {
        assert(s.subrange(i, i + k.len() + 3)[k.len() as int + 2] == s[j]);
        assert(json_key(k)[k.len() as int + 2] == ':');
    }
    lemma_ws_noop(s, j);
    lemma_ws_noop(s, j + 1);
}

/// A part of a known stretch of `s` is the same part of that stretch.
proof fn lemma_subrange_split(s: Seq<char>, i: int, a: int, b: int, whole: Seq<char>)
    requires
        0 <= i,
        i + whole.len() <= s.len(),
        s.subrange(i, i + whole.len()) == whole,
        0 <= a <= b <= whole.len(),
    ensures
        s.subrange(i + a, i + b) == whole.subrange(a, b),
{
    assert forall|x: int| 0 <= x < b - a implies s.subrange(i + a, i + b)[x] == whole.subrange(
        a,
        b,
    )[x] by {
        assert(s.subrange(i, i + whole.len())[a + x] == s[i + a + x]);
    }
    assert(s.subrange(i + a, i + b) =~= whole.subrange(a, b));
}

/// One character of a known stretch of `s`.
proof fn lemma_char_at(s: Seq<char>, i: int, a: int, whole: Seq<char>)
    requires
        0 <= i,
        i + whole.len() <= s.len(),
        s.subrange(i, i + whole.len()) == whole,
        0 <= a < whole.len(),
    ensures
        s[i + a] == whole[a],
{
    assert(s.subrange(i, i + whole.len())[a] == s[i + a]);
}

/// Every entry of the sequence is escape-free.
pub open spec fn escape_free_all(ms: Seq<Seq<char>>) -> bool {
    forall|j: int| 0 <= j < ms.len() ==> escape_free(#[trigger] ms[j])
}

/// Valid modifier lists need no escaping.
proof fn lemma_wf_modifiers_escape_free(ms: Seq<Seq<char>>)
    requires
        wf_modifiers(ms),
    ensures
        escape_free_all(ms),
{
    assert forall|j: int| 0 <= j < ms.len() implies escape_free(#[trigger] ms[j]) by {
        assert(wf_name(ms[j]));
        lemma_ident_escape_free(ms[j]);
    }
}

/// Scanning the rendered rest of a string array (the items after the
/// first, then the closing bracket) yields those items.
proof fn lemma_scan_jstrings_rest_at(s: Seq<char>, i: int, ms: Seq<Seq<char>>)
    requires
        0 <= i,
        i + json_strings_rest(ms).len() + 1 <= s.len(),
        s.subrange(i, i + json_strings_rest(ms).len() + 1) == json_strings_rest(ms) + seq![']'],
        escape_free_all(ms),
    ensures
        scan_jstrings_rest(s, i) == Some((ms, i + json_strings_rest(ms).len() + 1)),
    decreases ms.len(),
{
    let whole = json_strings_rest(ms) + seq![']'];
    if ms.len() == 0 {
        assert(json_strings_rest(ms) =~= Seq::<char>::empty());
        lemma_char_at(s, i, 0, whole);
        assert(s[i] == ']');
        assert(ms =~= Seq::<Seq<char>>::empty());
    } else {
        let m0 = ms[0];
        let q0 = json_quote(m0);
        let drop = ms.drop_first();
        let rest1 = json_strings_rest(drop);
        assert(json_strings_rest(ms) == seq![','] + q0 + rest1);
        assert(whole =~= seq![','] + q0 + (rest1 + seq![']']));
        lemma_char_at(s, i, 0, whole);
        assert(s[i] == ',');
        lemma_char_at(s, i, 1, whole);
        assert(s[i + 1] == '"');
        lemma_ws_noop(s, i + 1);
        lemma_subrange_split(s, i, 1, 1 + q0.len() as int, whole);
        assert(whole.subrange(1, 1 + q0.len() as int) =~= q0);
        assert(escape_free(m0));
        lemma_scan_jstring_at(s, i + 1, m0);
        let k = i + 1 + m0.len() + 2;
        assert(scan_jstring(s, i + 1) == Some((m0, k)));
        lemma_char_at(s, i, 1 + q0.len() as int, whole);
        if drop.len() == 0 {
            assert(rest1 =~= Seq::<char>::empty());
            assert(whole[1 + q0.len() as int] == ']');
        } else {
            assert(rest1 == seq![','] + json_quote(drop[0]) + json_strings_rest(
                drop.drop_first(),
            ));
            assert(whole[1 + q0.len() as int] == ',');
        }
        assert(!crate::grammar::is_ws_char(s[k]));
        lemma_ws_noop(s, k);
        lemma_subrange_split(s, i, 1 + q0.len() as int, whole.len() as int, whole);
        assert(whole.subrange(1 + q0.len() as int, whole.len() as int) =~= rest1 + seq![']']);
        assert(escape_free_all(drop)) by {
            assert(forall|j: int| 0 <= j < drop.len() ==> #[trigger] drop[j] == ms[j + 1]);
        }
        lemma_scan_jstrings_rest_at(s, k, drop);
        assert(seq![m0] + drop =~= ms);
    }
}

/// Scanning a rendered string array yields its items.
proof fn lemma_scan_jstring_array_at(s: Seq<char>, i: int, ms: Seq<Seq<char>>)
    requires
        0 <= i,
        i + json_string_array(ms).len() <= s.len(),
        s.subrange(i, i + json_string_array(ms).len()) == json_string_array(ms),
        escape_free_all(ms),
    ensures
        scan_jstring_array(s, i) == Some((ms, i + json_string_array(ms).len())),
{
    let whole = json_string_array(ms);
    lemma_char_at(s, i, 0, whole);
    assert(s[i] == '[');
    if ms.len() == 0 {
        assert(json_string_items(ms) =~= Seq::<char>::empty());
        assert(whole =~= seq!['[', ']']);
        lemma_char_at(s, i, 1, whole);
        assert(s[i + 1] == ']');
        lemma_ws_noop(s, i + 1);
        assert(ms =~= Seq::<Seq<char>>::empty());
    } else {
        let m0 = ms[0];
        let q0 = json_quote(m0);
        let drop = ms.drop_first();
        let rest1 = json_strings_rest(drop);
        assert(json_string_items(ms) == q0 + rest1);
        assert(whole =~= seq!['['] + q0 + (rest1 + seq![']']));
        lemma_char_at(s, i, 1, whole);
        assert(s[i + 1] == '"');
        lemma_ws_noop(s, i + 1);
        lemma_subrange_split(s, i, 1, 1 + q0.len() as int, whole);
        assert(whole.subrange(1, 1 + q0.len() as int) =~= q0);
        assert(escape_free(m0));
        lemma_scan_jstring_at(s, i + 1, m0);
        let k = i + 1 + m0.len() + 2;
        lemma_char_at(s, i, 1 + q0.len() as int, whole);
        if drop.len() == 0 {
            assert(rest1 =~= Seq::<char>::empty());
            assert(whole[1 + q0.len() as int] == ']');
        } else {
            assert(rest1 == seq![','] + json_quote(drop[0]) + json_strings_rest(
                drop.drop_first(),
            ));
            assert(whole[1 + q0.len() as int] == ',');
        }
        assert(!crate::grammar::is_ws_char(s[k]));
        lemma_ws_noop(s, k);
        lemma_subrange_split(s, i, 1 + q0.len() as int, whole.len() as int, whole);
        assert(whole.subrange(1 + q0.len() as int, whole.len() as int) =~= rest1 + seq![']']);
        assert(escape_free_all(drop)) by {
            assert(forall|j: int| 0 <= j < drop.len() ==> #[trigger] drop[j] == ms[j + 1]);
        }
        lemma_scan_jstrings_rest_at(s, k, drop);
        assert(seq![m0] + drop =~= ms);
    }
}

/// The keys of the wire format need no escaping.
proof fn lemma_keys_escape_free()
    ensures
        escape_free(name_chars()),
        escape_free(modifiers_chars()),
        escape_free(elements_chars()),
{
}

/// Scanning a rendered element object yields that element.
proof fn lemma_scan_jelement_at(s: Seq<char>, i: int, e: ElementView)
    requires
        0 <= i,
        i + json_of_element(e).len() <= s.len(),
        s.subrange(i, i + json_of_element(e).len()) == json_of_element(e),
        wf_element(e),
    ensures
        scan_jelement(s, i) == Some((e, i + json_of_element(e).len())),
{
    let whole = json_of_element(e);
    let qn = e.name.len() as int + 2;
    let la = json_string_array(e.modifiers).len() as int;
    assert(whole.len() == 22 + qn + la);
    lemma_keys_escape_free();
    lemma_ident_escape_free(e.name);
    lemma_wf_modifiers_escape_free(e.modifiers);
    lemma_char_at(s, i, 0, whole);
    assert(s[i] == '{');
    lemma_char_at(s, i, 1, whole);
    assert(s[i + 1] == '"');
    lemma_ws_noop(s, i + 1);
    lemma_subrange_split(s, i, 1, 8, whole);
    assert(whole.subrange(1, 8) =~= json_key(name_chars()));
    lemma_char_at(s, i, 8, whole);
    assert(s[i + 8] == '"');
    lemma_scan_key_at(s, i + 1, name_chars());
    assert(scan_key(s, i + 1, name_chars()) == Some(i + 8));
    lemma_subrange_split(s, i, 8, 8 + qn, whole);
    assert(whole.subrange(8, 8 + qn) =~= json_quote(e.name));
    lemma_scan_jstring_at(s, i + 8, e.name);
    let c = i + 8 + qn;
    assert(scan_jstring(s, i + 8) == Some((e.name, c)));
    lemma_char_at(s, i, 8 + qn, whole);
    assert(s[c] == ',');
    lemma_ws_noop(s, c);
    lemma_char_at(s, i, 9 + qn, whole);
    assert(s[c + 1] == '"');
    lemma_ws_noop(s, c + 1);
    lemma_subrange_split(s, i, 9 + qn, 21 + qn, whole);
    assert(whole.subrange(9 + qn, 21 + qn) =~= json_key(modifiers_chars()));
    lemma_char_at(s, i, 21 + qn, whole);
    assert(s[i + 21 + qn] == '[');
    lemma_scan_key_at(s, c + 1, modifiers_chars());
    assert(scan_key(s, c + 1, modifiers_chars()) == Some(i + 21 + qn));
    lemma_subrange_split(s, i, 21 + qn, 21 + qn + la, whole);
    assert(whole.subrange(21 + qn, 21 + qn + la) =~= json_string_array(e.modifiers));
    lemma_scan_jstring_array_at(s, i + 21 + qn, e.modifiers);
    let g = i + 21 + qn + la;
    assert(scan_jstring_array(s, i + 21 + qn) == Some((e.modifiers, g)));
    lemma_char_at(s, i, 21 + qn + la, whole);
    assert(s[g] == '}');
    lemma_ws_noop(s, g);
    assert(ElementView { name: e.name, modifiers: e.modifiers } =~= e);
}

/// Every entry of the sequence is a well-formed element.
pub open spec fn wf_elements(es: Seq<ElementView>) -> bool {
    forall|j: int| 0 <= j < es.len() ==> wf_element(#[trigger] es[j])
}

/// Scanning the rendered rest of an element array (the items after the
/// first, then the closing bracket) yields those items.
proof fn lemma_scan_jelements_rest_at(s: Seq<char>, i: int, es: Seq<ElementView>)
    requires
        0 <= i,
        i + json_elements_rest(es).len() + 1 <= s.len(),
        s.subrange(i, i + json_elements_rest(es).len() + 1) == json_elements_rest(es)
            + seq![']'],
        wf_elements(es),
    ensures
        scan_jelements_rest(s, i) == Some((es, i + json_elements_rest(es).len() + 1)),
    decreases es.len(),
{
    let whole = json_elements_rest(es) + seq![']'];
    if es.len() == 0 {
        assert(json_elements_rest(es) =~= Seq::<char>::empty());
        lemma_char_at(s, i, 0, whole);
        assert(s[i] == ']');
        assert(es =~= Seq::<ElementView>::empty());
    } else {
        let e0 = es[0];
        let r0 = json_of_element(e0);
        let drop = es.drop_first();
        let rest1 = json_elements_rest(drop);
        assert(json_elements_rest(es) == seq![','] + r0 + rest1);
        assert(whole =~= seq![','] + r0 + (rest1 + seq![']']));
        lemma_char_at(s, i, 0, whole);
        assert(s[i] == ',');
        lemma_char_at(s, i, 1, whole);
        assert(s[i + 1] == '{');
        lemma_ws_noop(s, i + 1);
        lemma_subrange_split(s, i, 1, 1 + r0.len() as int, whole);
        assert(whole.subrange(1, 1 + r0.len() as int) =~= r0);
        assert(wf_element(e0));
        lemma_scan_jelement_at(s, i + 1, e0);
        let k = i + 1 + r0.len() as int;
        assert(scan_jelement(s, i + 1) == Some((e0, k)));
        lemma_char_at(s, i, 1 + r0.len() as int, whole);
        if drop.len() == 0 {
            assert(rest1 =~= Seq::<char>::empty());
            assert(whole[1 + r0.len() as int] == ']');
        } else {
            assert(rest1 == seq![','] + json_of_element(drop[0]) + json_elements_rest(
                drop.drop_first(),
            ));
            assert(whole[1 + r0.len() as int] == ',');
        }
        assert(!crate::grammar::is_ws_char(s[k]));
        lemma_ws_noop(s, k);
        lemma_subrange_split(s, i, 1 + r0.len() as int, whole.len() as int, whole);
        assert(whole.subrange(1 + r0.len() as int, whole.len() as int) =~= rest1 + seq![']']);
        assert(wf_elements(drop)) by {
            assert(forall|j: int| 0 <= j < drop.len() ==> #[trigger] drop[j] == es[j + 1]);
        }
        lemma_scan_jelements_rest_at(s, k, drop);
        assert(seq![e0] + drop =~= es);
    }
}

/// Scanning a rendered element array yields its items.
proof fn lemma_scan_jelement_array_at(s: Seq<char>, i: int, es: Seq<ElementView>)
    requires
        0 <= i,
        i + json_element_array(es).len() <= s.len(),
        s.subrange(i, i + json_element_array(es).len()) == json_element_array(es),
        wf_elements(es),
    ensures
        scan_jelement_array(s, i) == Some((es, i + json_element_array(es).len())),
{
    let whole = json_element_array(es);
    lemma_char_at(s, i, 0, whole);
    assert(s[i] == '[');
    if es.len() == 0 {
        assert(json_element_items(es) =~= Seq::<char>::empty());
        assert(whole =~= seq!['[', ']']);
        lemma_char_at(s, i, 1, whole);
        assert(s[i + 1] == ']');
        lemma_ws_noop(s, i + 1);
        assert(es =~= Seq::<ElementView>::empty());
    } else {
        let e0 = es[0];
        let r0 = json_of_element(e0);
        let drop = es.drop_first();
        let rest1 = json_elements_rest(drop);
        assert(json_element_items(es) == r0 + rest1);
        assert(whole =~= seq!['['] + r0 + (rest1 + seq![']']));
        lemma_char_at(s, i, 1, whole);
        assert(s[i + 1] == '{');
        lemma_ws_noop(s, i + 1);
        lemma_subrange_split(s, i, 1, 1 + r0.len() as int, whole);
        assert(whole.subrange(1, 1 + r0.len() as int) =~= r0);
        assert(wf_element(e0));
        lemma_scan_jelement_at(s, i + 1, e0);
        let k = i + 1 + r0.len() as int;
        lemma_char_at(s, i, 1 + r0.len() as int, whole);
        if drop.len() == 0 {
            assert(rest1 =~= Seq::<char>::empty());
            assert(whole[1 + r0.len() as int] == ']');
        } else {
            assert(rest1 == seq![','] + json_of_element(drop[0]) + json_elements_rest(
                drop.drop_first(),
            ));
            assert(whole[1 + r0.len() as int] == ',');
        }
        assert(!crate::grammar::is_ws_char(s[k]));
        lemma_ws_noop(s, k);
        lemma_subrange_split(s, i, 1 + r0.len() as int, whole.len() as int, whole);
        assert(whole.subrange(1 + r0.len() as int, whole.len() as int) =~= rest1 + seq![']']);
        assert(wf_elements(drop)) by {
            assert(forall|j: int| 0 <= j < drop.len() ==> #[trigger] drop[j] == es[j + 1]);
        }
        lemma_scan_jelements_rest_at(s, k, drop);
        assert(seq![e0] + drop =~= es);
    }
}

/// The round-trip law: the rendered JSON of a well-formed block reads back
/// as exactly that block.
#[verifier::rlimit(60)]
pub proof fn lemma_json_round_trip(v: BlockView)
    requires
        wf_block(v),
    ensures
        from_json_spec(json_of_block(v)) == Some(v),
{
    let s = json_of_block(v);
    let qn = v.name.len() as int + 2;
    let la = json_string_array(v.modifiers).len() as int;
    let le = json_element_array(v.elements).len() as int;
    assert(s.len() == 34 + qn + la + le);
    assert(s.subrange(0, s.len() as int) =~= s);
    lemma_keys_escape_free();
    lemma_ident_escape_free(v.name);
    lemma_wf_modifiers_escape_free(v.modifiers);
    assert(wf_elements(v.elements));
    lemma_char_at(s, 0, 0, s);
    assert(s[0] == '{');
    lemma_ws_noop(s, 0);
    lemma_char_at(s, 0, 1, s);
    assert(s[1] == '"');
    lemma_ws_noop(s, 1);
    lemma_subrange_split(s, 0, 1, 8, s);
    assert(s.subrange(1, 8) =~= json_key(name_chars()));
    lemma_char_at(s, 0, 8, s);
    assert(s[8] == '"');
    lemma_scan_key_at(s, 1, name_chars());
    assert(scan_key(s, 1, name_chars()) == Some(8int));
    lemma_subrange_split(s, 0, 8, 8 + qn, s);
    assert(s.subrange(8, 8 + qn) =~= json_quote(v.name));
    lemma_scan_jstring_at(s, 8, v.name);
    let c = 8 + qn;
    assert(scan_jstring(s, 8) == Some((v.name, c)));
    lemma_char_at(s, 0, c, s);
    assert(s[c] == ',');
    lemma_ws_noop(s, c);
    lemma_char_at(s, 0, c + 1, s);
    assert(s[c + 1] == '"');
    lemma_ws_noop(s, c + 1);
    lemma_subrange_split(s, 0, c + 1, c + 13, s);
    assert(s.subrange(c + 1, c + 13) =~= json_key(modifiers_chars()));
    lemma_char_at(s, 0, c + 13, s);
    assert(s[c + 13] == '[');
    lemma_scan_key_at(s, c + 1, modifiers_chars());
    assert(scan_key(s, c + 1, modifiers_chars()) == Some(c + 13));
    lemma_subrange_split(s, 0, c + 13, c + 13 + la, s);
    assert(s.subrange(c + 13, c + 13 + la) =~= json_string_array(v.modifiers));
    lemma_scan_jstring_array_at(s, c + 13, v.modifiers);
    let g = c + 13 + la;
    assert(scan_jstring_array(s, c + 13) == Some((v.modifiers, g)));
    lemma_char_at(s, 0, g, s);
    assert(s[g] == ',');
    lemma_ws_noop(s, g);
    lemma_char_at(s, 0, g + 1, s);
    assert(s[g + 1] == '"');
    lemma_ws_noop(s, g + 1);
    lemma_subrange_split(s, 0, g + 1, g + 12, s);
    assert(s.subrange(g + 1, g + 12) =~= json_key(elements_chars()));
    lemma_char_at(s, 0, g + 12, s);
    assert(s[g + 12] == '[');
    lemma_scan_key_at(s, g + 1, elements_chars());
    assert(scan_key(s, g + 1, elements_chars()) == Some(g + 12));
    lemma_subrange_split(s, 0, g + 12, g + 12 + le, s);
    assert(s.subrange(g + 12, g + 12 + le) =~= json_element_array(v.elements));
    lemma_scan_jelement_array_at(s, g + 12, v.elements);
    let t = g + 12 + le;
    assert(scan_jelement_array(s, g + 12) == Some((v.elements, t)));
    lemma_char_at(s, 0, t, s);
    assert(s[t] == '}');
    lemma_ws_noop(s, t);
    assert(t + 1 == s.len());
    lemma_ws_noop(s, t + 1);
    assert(BlockView { name: v.name, modifiers: v.modifiers, elements: v.elements } =~= v);
}

/// The round-trip law for parsed blocks: every block the parser can
/// produce reads back from its rendered JSON as exactly itself.
pub proof fn lemma_parse_round_trip(s: Seq<char>, v: BlockView)
    requires
        crate::grammar::parse_spec(s) == Some(v),
    ensures
        from_json_spec(json_of_block(v)) == Some(v),
{
    crate::grammar::lemma_parse_spec_wf(s, v);
    lemma_json_round_trip(v);
}

} // verus!

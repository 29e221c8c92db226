//! Template rendering: placeholder substitution followed by an escape pass.
//!
//! Substitution scans the template for `{{name}}` placeholders (non-nested;
//! the first `}}` after a `{{` closes it) and replaces each with the textual
//! form of the variable's value, or the literal text `undefined` when the
//! name is unset.  A second pass then deletes every `\` and passes the
//! character after it through unchanged.  The order is part of the contract:
//! the escape pass runs once over the fully substituted string, so escapes
//! inside a substituted value are processed too, and a `\` before `{{` does
//! not keep the placeholder from resolving.

use vstd::prelude::*;
use crate::store::{Variable, VariableStore, value_text};
use crate::strutil::{find_pair, find_pair_in_str, lemma_find_pair};

verus! {

/// The text substituted for a placeholder naming `name`.
pub open spec fn lookup_text(vars: Map<Seq<char>, Variable>, name: Seq<char>) -> Seq<char> {
    if vars.contains_key(name) {
        value_text(vars[name].value)
    } else {
        "undefined"@
    }
}

/// The text one segment (the stretch following a `{{`) becomes: the value of
/// the name before the first `}}` — the whole segment is the name when no
/// `}}` follows — then the whole remainder of the segment as it stands.
pub open spec fn segment_text(seg: Seq<char>, vars: Map<Seq<char>, Variable>) -> Seq<char> {
    let j = find_pair(seg, '}', '}');
    if j < 0 {
        lookup_text(vars, seg)
    } else {
        lookup_text(vars, seg.take(j)).add(seg.skip(j + 2))
    }
}

/// The text a run of segments becomes, splitting at each further `{{`.
pub open spec fn segments_text(t: Seq<char>, vars: Map<Seq<char>, Variable>) -> Seq<char>
    decreases t.len(),
    via segments_text_decreases
{
    let b = find_pair(t, '{', '{');
    if b < 0 {
        segment_text(t, vars)
    } else {
        segment_text(t.take(b), vars).add(segments_text(t.skip(b + 2), vars))
    }
}

#[via_fn]
proof fn segments_text_decreases(t: Seq<char>, vars: Map<Seq<char>, Variable>) {
    lemma_find_pair(t, '{', '{');
}

/// The substitution pass over a whole template.
pub open spec fn substituted_text(s: Seq<char>, vars: Map<Seq<char>, Variable>) -> Seq<char> {
    let i = find_pair(s, '{', '{');
    if i < 0 {
        s
    } else {
        s.take(i).add(segments_text(s.skip(i + 2), vars))
    }
}

/// The escape pass: every `\` is deleted and the character after it is kept
/// as it stands.
pub open spec fn unescaped_text(s: Seq<char>) -> Seq<char>
    decreases s.len(),
{
    if s.len() == 0 {
        s
    } else if s[0] == '\\' {
        if s.len() == 1 {
            Seq::empty()
        } else {
            seq![s[1]].add(unescaped_text(s.skip(2)))
        }
    } else {
        seq![s[0]].add(unescaped_text(s.skip(1)))
    }
}

/// Both passes in order: substitution, then escape removal.
pub open spec fn rendered_text(s: Seq<char>, vars: Map<Seq<char>, Variable>) -> Seq<char> {
    unescaped_text(substituted_text(s, vars))
}

fn lookup(name: &str, vars: &VariableStore) -> (r: String)
    requires
        vars.wf(),
    ensures
        r@ == lookup_text(vars@, name@),
{
    match vars.get(name) {
        Some(v) => crate::store::get_value(&v.value),
        None => String::from_str("undefined"),
    }
}

fn render_one_segment(seg: &str, vars: &VariableStore) -> (r: String)
    requires
        vars.wf(),
    ensures
        r@ == segment_text(seg@, vars@),
{
    match find_pair_in_str(seg, '}', '}') {
        None => lookup(seg, vars),
        Some(j) => {
            let n = seg.unicode_len();
            proof {
                lemma_find_pair(seg@, '}', '}');
                assert(j + 2 <= n);
            }
            let name = seg.substring_char(0, j);
            let rest = seg.substring_char(j + 2, n);
            let value = lookup(name, vars);
            value.concat(rest)
        },
    }
}

fn render_segments(t: &str, vars: &VariableStore) -> (r: String)
    requires
        vars.wf(),
    ensures
        r@ == segments_text(t@, vars@),
    decreases t@.len(),
{
    match find_pair_in_str(t, '{', '{') {
        None => render_one_segment(t, vars),
        Some(b) => {
            let n = t.unicode_len();
            proof {
                lemma_find_pair(t@, '{', '{');
                assert(b + 2 <= n);
            }
            let seg = t.substring_char(0, b);
            let rest = t.substring_char(b + 2, n);
            let first = render_one_segment(seg, vars);
            let restr = render_segments(rest, vars);
            first.concat(restr.as_str())
        },
    }
}

fn substitute(s: &str, vars: &VariableStore) -> (r: String)
    requires
        vars.wf(),
    ensures
        r@ == substituted_text(s@, vars@),
{
    match find_pair_in_str(s, '{', '{') {
        None => s.to_owned(),
        Some(i) => {
            let n = s.unicode_len();
            proof {
                lemma_find_pair(s@, '{', '{');
                assert(i + 2 <= n);
            }
            let prefix = s.substring_char(0, i);
            let rest = s.substring_char(i + 2, n);
            let tail = render_segments(rest, vars);
            prefix.to_owned().concat(tail.as_str())
        },
    }
}

fn unescape(s: &str) -> (r: String)
    ensures
        r@ == unescaped_text(s@),
    decreases s@.len(),
{
    let n = s.unicode_len();
    if n == 0 {
        String::new()
    } else if s.get_char(0) == '\\' {
        if n == 1 {
            String::new()
        } else {
            let kept = s.substring_char(1, 2);
            let rest = unescape(s.substring_char(2, n));
            proof {
                assert(kept@ =~= seq![s@[1]]);
            }
            kept.to_owned().concat(rest.as_str())
        }
    } else {
        let kept = s.substring_char(0, 1);
        let rest = unescape(s.substring_char(1, n));
        proof {
            assert(kept@ =~= seq![s@[0]]);
        }
        kept.to_owned().concat(rest.as_str())
    }
}

/// Renders a template against a store: placeholder substitution, then the
/// escape pass.
pub fn render(template: &str, vars: &VariableStore) -> (r: String)
    requires
        vars.wf(),
    ensures
        r@ == rendered_text(template@, vars@),
{
    let substituted = substitute(template, vars);
    unescape(substituted.as_str())
}

/// A template in which `{{` nowhere occurs is returned unchanged but for
/// escape-character removal, whatever the store holds.
pub proof fn lemma_render_no_placeholders(s: Seq<char>, vars: Map<Seq<char>, Variable>)
    requires
        forall|i: int| 0 <= i && i + 1 < s.len() ==> !(#[trigger] s[i] == '{' && s[i + 1] == '{'),
    ensures
        rendered_text(s, vars) == unescaped_text(s),
{
    lemma_find_pair(s, '{', '{');
    if find_pair(s, '{', '{') != -1 {
        let r = find_pair(s, '{', '{');
        assert(!(s[r] == '{' && s[r + 1] == '{'));
        assert(false);
    }
}

} // verus!

//! Environments and `${NAME}` token expansion.
//!
//! An environment is an ordered list of bindings with pairwise distinct
//! names. Expansion is one scan of the text from left to right: where the
//! token of a binding stands, the binding's value is put in its place and
//! the scan goes on behind the token. What was put in is not scanned.

use vstd::prelude::*;
use crate::collect::{filter_map, filter_map_first};
use crate::entities::{EnvPreset, EnvPresetModel, EnvVar, EnvVarModel};
use crate::json::{lemma_array_view, lemma_object_view, Json, JsonModel};
use crate::keyed::{
    index_of_key, keys_distinct, lemma_index_of_key_is, lemma_set_key_distinct,
    lemma_value_set_other, lemma_value_set_same, set_key, value_at_key,
};
use crate::text::{
    append_chars, chars_of, lemma_replace_all_absent, lemma_replace_all_changes,
    lemma_replace_all_short, matches_at, occurs_in, replace_all, same_text, starts_with_at,
    string_of,
};

verus! {

/// A binding of a name to a value, as a model.
pub type Binding = (Seq<char>, Seq<char>);

/// The bindings after each variable of `vars` is set, in order.
pub open spec fn overlay(b: Seq<Binding>, vars: Seq<EnvVarModel>) -> Seq<Binding>
    decreases vars.len(),
{
    if vars.len() == 0 {
        b
    } else {
        set_key(overlay(b, vars.drop_last()), vars.last().name, vars.last().value)
    }
}

/// The value that the last variable named `name` in `vars` carries.
pub open spec fn last_value(vars: Seq<EnvVarModel>, name: Seq<char>) -> Option<Seq<char>>
    decreases vars.len(),
{
    if vars.len() == 0 {
        None
    } else if vars.last().name == name {
        Some(vars.last().value)
    } else {
        last_value(vars.drop_last(), name)
    }
}

/// The placeholder `${name}`.
pub open spec fn token(name: Seq<char>) -> Seq<char> {
    seq!['$', '{'] + name + seq!['}']
}

/// The index of the first binding whose token stands at the start of the
/// text, if there is one.
pub open spec fn first_token_at(text: Seq<char>, b: Seq<Binding>) -> Option<int>
    decreases b.len(),
{
    if b.len() == 0 {
        None
    } else if matches_at(text, token(b[0].0), 0) {
        Some(0int)
    } else {
        match first_token_at(text, b.skip(1)) {
            Some(i) => Some(i + 1),
            None => None,
        }
    }
}

/// The first binding whose token stands at the start of the text is what
/// [`first_token_at`] finds; it finds none exactly when no token does.
pub proof fn lemma_first_token_at(text: Seq<char>, b: Seq<Binding>)
    ensures
        match first_token_at(text, b) {
            Some(i) => 0 <= i < b.len() && matches_at(text, token(b[i].0), 0) && forall|k: int|
                0 <= k < i ==> !matches_at(text, token(#[trigger] b[k].0), 0),
            None => forall|k: int|
                0 <= k < b.len() ==> !matches_at(text, token(#[trigger] b[k].0), 0),
        },
    decreases b.len(),
{
    if b.len() == 0 {
    } else if matches_at(text, token(b[0].0), 0) {
    } else {
        let rest = b.skip(1);
        lemma_first_token_at(text, rest);
        match first_token_at(text, rest) {
            Some(i) => {
                assert(rest[i] == b[i + 1]);
                assert forall|k: int| 0 <= k < i + 1 implies !matches_at(
                    text,
                    token(#[trigger] b[k].0),
                    0,
                ) by {
                    if k > 0 {
                        assert(rest[k - 1] == b[k]);
                    }
                }
            },
            None => {
                assert forall|k: int| 0 <= k < b.len() implies !matches_at(
                    text,
                    token(#[trigger] b[k].0),
                    0,
                ) by {
                    if k > 0 {
                        assert(rest[k - 1] == b[k]);
                    }
                }
            },
        }
    }
}

/// The least index whose token stands at the start of the text is the one
/// found, and none is found where `j` is the number of bindings.
pub proof fn lemma_first_token_is(text: Seq<char>, b: Seq<Binding>, j: int)
    requires
        0 <= j <= b.len(),
        j < b.len() ==> matches_at(text, token(b[j].0), 0),
        forall|k: int| 0 <= k < j ==> !matches_at(text, token(#[trigger] b[k].0), 0),
    ensures
        first_token_at(text, b) == if j < b.len() {
            Some(j)
        } else {
            None
        },
{
    lemma_first_token_at(text, b);
    match first_token_at(text, b) {
        Some(i) => {
            if i < j {
                assert(!matches_at(text, token(b[i].0), 0));
            }
            if j < i {
                assert(!matches_at(text, token(b[j].0), 0));
            }
        },
        None => {
            if j < b.len() {
                assert(!matches_at(text, token(b[j].0), 0));
            }
        },
    }
}

/// The text with each token of a binding replaced by the binding's value,
/// in one scan from left to right. At each place the first binding whose
/// token stands there wins; a token that no binding has stays as it is;
/// a value that was put in is not scanned.
pub open spec fn expand(text: Seq<char>, b: Seq<Binding>) -> Seq<char>
    decreases text.len(),
{
    if text.len() == 0 {
        text
    } else {
        match first_token_at(text, b) {
            Some(i) => {
                proof {
                    lemma_first_token_at(text, b);
                }
                b[i].1 + expand(text.skip(token(b[i].0).len() as int), b)
            },
            None => seq![text[0]] + expand(text.skip(1), b),
        }
    }
}

/// No token of the bindings occurs in the text.
pub open spec fn token_free(text: Seq<char>, b: Seq<Binding>) -> bool {
    forall|i: int| 0 <= i < b.len() ==> !occurs_in(token(#[trigger] b[i].0), text)
}

/// The variables with each value expanded against `b`.
pub open spec fn expand_vars(vars: Seq<EnvVarModel>, b: Seq<Binding>) -> Seq<EnvVarModel> {
    Seq::new(
        vars.len(),
        |i: int|
            EnvVarModel {
                name: vars[i].name,
                value: expand(vars[i].value, b),
                operation: vars[i].operation,
            },
    )
}

/// After an overlay a name carries the value of the last variable that
/// names it, and its earlier value if no variable names it.
pub proof fn lemma_overlay_value(b: Seq<Binding>, vars: Seq<EnvVarModel>, name: Seq<char>)
    ensures
        value_at_key(overlay(b, vars), name) == match last_value(vars, name) {
            Some(v) => Some(v),
            None => value_at_key(b, name),
        },
    decreases vars.len(),
{
    if vars.len() > 0 {
        let inner = overlay(b, vars.drop_last());
        lemma_overlay_value(b, vars.drop_last(), name);
        if vars.last().name == name {
            lemma_value_set_same(inner, name, vars.last().value);
        } else {
            lemma_value_set_other(inner, vars.last().name, vars.last().value, name);
        }
    }
}

/// Layering precedence: with the variables of a preset laid over a system
/// environment and those of a node laid over both, a name carries the
/// node's value if the node sets it, else the preset's if the preset sets
/// it, else the system's.
pub proof fn lemma_layered_precedence(
    system: Seq<Binding>,
    preset: Seq<EnvVarModel>,
    node: Seq<EnvVarModel>,
    name: Seq<char>,
)
    ensures
        value_at_key(overlay(overlay(system, preset), node), name) == match last_value(node, name) {
            Some(v) => Some(v),
            None => match last_value(preset, name) {
                Some(v) => Some(v),
                None => value_at_key(system, name),
            },
        },
{
    lemma_overlay_value(overlay(system, preset), node, name);
    lemma_overlay_value(system, preset, name);
}

/// Expanding the values of variables keeps which variable is the last to
/// set a name, so the value that wins is the expansion of the one that won.
pub proof fn lemma_last_value_expand_vars(
    vars: Seq<EnvVarModel>,
    b: Seq<Binding>,
    name: Seq<char>,
)
    ensures
        last_value(expand_vars(vars, b), name) == match last_value(vars, name) {
            Some(v) => Some(expand(v, b)),
            None => None,
        },
    decreases vars.len(),
{
    if vars.len() > 0 {
        lemma_last_value_expand_vars(vars.drop_last(), b, name);
        assert(expand_vars(vars, b).drop_last() =~= expand_vars(vars.drop_last(), b));
    }
}

/// A text that holds no token of the bindings expands to itself.
pub proof fn lemma_expand_token_free(text: Seq<char>, b: Seq<Binding>)
    requires
        token_free(text, b),
    ensures
        expand(text, b) == text,
    decreases text.len(),
{
    if text.len() > 0 {
        lemma_first_token_at(text, b);
        match first_token_at(text, b) {
            Some(i) => {
                assert(occurs_in(token(b[i].0), text));
            },
            None => {
                let rest = text.skip(1);
                assert forall|i: int| 0 <= i < b.len() implies !occurs_in(
                    token(#[trigger] b[i].0),
                    rest,
                ) by {
                    let tok = token(b[i].0);
                    if occurs_in(tok, rest) {
                        let k = choose|k: int| matches_at(rest, tok, k);
                        assert(rest.subrange(k, k + tok.len()) == text.subrange(
                            k + 1,
                            k + 1 + tok.len(),
                        ));
                        assert(matches_at(text, tok, k + 1));
                    }
                }
                lemma_expand_token_free(rest, b);
                assert(seq![text[0]] + rest =~= text);
            },
        }
    }
}

/// Idempotence: if the expansion of a text holds no token of the bindings,
/// expanding it again changes nothing.
pub proof fn lemma_expand_idempotent(text: Seq<char>, b: Seq<Binding>)
    requires
        token_free(expand(text, b), b),
    ensures
        expand(expand(text, b), b) == expand(text, b),
{
    lemma_expand_token_free(expand(text, b), b);
}

/// A placeholder opens at index `i` of the text: `$` stands there and `{`
/// behind it.
pub open spec fn opens_at(text: Seq<char>, i: int) -> bool {
    0 <= i && i + 1 < text.len() && text[i] == '$' && text[i + 1] == '{'
}

/// Between any two places where a placeholder opens, a `}` stands.
pub open spec fn placeholders_apart(text: Seq<char>) -> bool {
    forall|p: int, r: int|
        p < r && #[trigger] opens_at(text, p) && #[trigger] opens_at(text, r) ==> exists|q: int|
            p < q < r && #[trigger] text[q] == '}'
}

/// Before every place where a placeholder opens, a `}` stands.
pub open spec fn closed_before(text: Seq<char>) -> bool {
    forall|r: int| #[trigger]
        opens_at(text, r) ==> exists|q: int| 0 <= q < r && #[trigger] text[q] == '}'
}

/// A value that cannot become part of a placeholder's opening: it is not
/// empty and holds neither `$` nor `{`.
pub open spec fn plain_value(v: Seq<char>) -> bool {
    v.len() > 0 && forall|k: int| 0 <= k < v.len() ==> #[trigger] v[k] != '$' && v[k] != '{'
}

/// A name that holds no `}`, so that its token ends at the first `}`.
pub open spec fn closed_name(n: Seq<char>) -> bool {
    forall|k: int| 0 <= k < n.len() ==> #[trigger] n[k] != '}'
}

/// Every value is plain and no name holds `}`.
pub open spec fn plain_bindings(b: Seq<Binding>) -> bool {
    forall|i: int| 0 <= i < b.len() ==> plain_value((#[trigger] b[i]).1) && closed_name(b[i].0)
}

/// A text in which the placeholders stand apart stays so when its start is
/// cut off.
proof fn lemma_apart_skip(text: Seq<char>, n: int)
    requires
        placeholders_apart(text),
        0 <= n <= text.len(),
    ensures
        placeholders_apart(text.skip(n)),
{
    let rest = text.skip(n);
    assert forall|p: int, r: int|
        p < r && #[trigger] opens_at(rest, p) && #[trigger] opens_at(rest, r) implies exists|q: int|
        p < q < r && #[trigger] rest[q] == '}' by {
        assert(opens_at(text, p + n));
        assert(opens_at(text, r + n));
        let q = choose|q: int| p + n < q < r + n && #[trigger] text[q] == '}';
        assert(rest[q - n] == '}');
    }
}

/// Where a token stands at the start of a text, a placeholder opens there.
proof fn lemma_token_opens(text: Seq<char>, name: Seq<char>)
    requires
        matches_at(text, token(name), 0),
    ensures
        opens_at(text, 0),
{
    let tok = token(name);
    assert(tok[0] == '$' && tok[1] == '{');
    assert(text.subrange(0, tok.len() as int)[0] == text[0]);
    assert(text.subrange(0, tok.len() as int)[1] == text[1]);
}

/// In a text where a `}` stands before every opening of a placeholder, the
/// scan copies everything up to the first `}`: if the expansion starts with
/// `w` and a `}`, and `w` holds no `}`, the text starts with them too.
proof fn lemma_expand_copies_to_first_close(u: Seq<char>, b: Seq<Binding>, w: Seq<char>)
    requires
        closed_before(u),
        closed_name(w),
        w.len() + 1 <= expand(u, b).len(),
        expand(u, b).subrange(0, w.len() as int) == w,
        expand(u, b)[w.len() as int] == '}',
    ensures
        w.len() + 1 <= u.len(),
        u.subrange(0, w.len() as int) == w,
        u[w.len() as int] == '}',
    decreases w.len(),
{
    let e = expand(u, b);
    if u.len() == 0 {
        assert(e.len() == 0);
    } else {
        lemma_first_token_at(u, b);
        match first_token_at(u, b) {
            Some(i) => {
                lemma_token_opens(u, b[i].0);
                assert(opens_at(u, 0));
            },
            None => {
                let rest = u.skip(1);
                let inner = expand(rest, b);
                assert(e == seq![u[0]] + inner);
                assert(e[0] == u[0]);
                if w.len() == 0 {
                    assert(u.subrange(0, 0) =~= w);
                } else {
                    let tail = w.skip(1);
                    assert(e.subrange(0, w.len() as int)[0] == e[0]);
                    assert(u[0] == w[0]);
                    assert(u[0] != '}');
                    assert(closed_name(tail)) by {
                        assert forall|k: int| 0 <= k < tail.len() implies #[trigger] tail[k]
                            != '}' by {
                            assert(tail[k] == w[k + 1]);
                        }
                    }
                    assert(inner.subrange(0, tail.len() as int) =~= tail) by {
                        assert forall|k: int| 0 <= k < tail.len() implies inner.subrange(
                            0,
                            tail.len() as int,
                        )[k] == tail[k] by {
                            assert(inner[k] == e[k + 1]);
                            assert(e.subrange(0, w.len() as int)[k + 1] == e[k + 1]);
                        }
                    }
                    assert(inner[tail.len() as int] == e[w.len() as int]);
                    assert(closed_before(rest)) by {
                        assert forall|r: int| #[trigger] opens_at(rest, r) implies exists|q: int|
                            0 <= q < r && #[trigger] rest[q] == '}' by {
                            assert(opens_at(u, r + 1));
                            let q = choose|q: int| 0 <= q < r + 1 && #[trigger] u[q] == '}';
                            assert(rest[q - 1] == '}');
                        }
                    }
                    lemma_expand_copies_to_first_close(rest, b, tail);
                    assert(u.subrange(0, w.len() as int) =~= w) by {
                        assert forall|k: int| 0 <= k < w.len() implies u.subrange(
                            0,
                            w.len() as int,
                        )[k] == w[k] by {
                            if k > 0 {
                                assert(rest.subrange(0, tail.len() as int)[k - 1] == rest[k - 1]);
                                assert(tail[k - 1] == w[k]);
                            }
                        }
                    }
                    assert(u[w.len() as int] == rest[tail.len() as int]);
                }
            },
        }
    }
}

/// With plain bindings, the expansion of a text in which the placeholders
/// stand apart holds no token of the bindings.
pub proof fn lemma_expand_plain_token_free(text: Seq<char>, b: Seq<Binding>)
    requires
        plain_bindings(b),
        placeholders_apart(text),
    ensures
        token_free(expand(text, b), b),
    decreases text.len(),
{
    let out = expand(text, b);
    if text.len() == 0 {
        assert forall|j: int| 0 <= j < b.len() implies !occurs_in(token(#[trigger] b[j].0), out) by {
            assert forall|k: int| !matches_at(out, token(b[j].0), k) by {}
        }
    } else {
        lemma_first_token_at(text, b);
        match first_token_at(text, b) {
            Some(i) => {
                let v = b[i].1;
                let cut = token(b[i].0).len() as int;
                let rest = text.skip(cut);
                let inner = expand(rest, b);
                lemma_apart_skip(text, cut);
                lemma_expand_plain_token_free(rest, b);
                assert(out == v + inner);
                assert forall|j: int| 0 <= j < b.len() implies !occurs_in(
                    token(#[trigger] b[j].0),
                    out,
                ) by {
                    let tok = token(b[j].0);
                    assert(tok[0] == '$');
                    assert forall|k: int| !matches_at(out, tok, k) by {
                        if matches_at(out, tok, k) {
                            assert(out.subrange(k, k + tok.len())[0] == out[k]);
                            if k < v.len() {
                                assert(out[k] == v[k]);
                                assert(plain_value(b[i].1));
                            } else {
                                assert(inner.subrange(k - v.len(), k - v.len() + tok.len())
                                    =~= out.subrange(k, k + tok.len()));
                                assert(matches_at(inner, tok, k - v.len()));
                                assert(!occurs_in(token(b[j].0), inner));
                            }
                        }
                    }
                }
            },
            None => {
                let rest = text.skip(1);
                let inner = expand(rest, b);
                lemma_apart_skip(text, 1);
                lemma_expand_plain_token_free(rest, b);
                assert(out == seq![text[0]] + inner);
                assert forall|j: int| 0 <= j < b.len() implies !occurs_in(
                    token(#[trigger] b[j].0),
                    out,
                ) by {
                    let name = b[j].0;
                    let tok = token(name);
                    assert forall|k: int| !matches_at(out, tok, k) by {
                        if matches_at(out, tok, k) {
                            if k >= 1 {
                                assert(inner.subrange(k - 1, k - 1 + tok.len()) =~= out.subrange(
                                    k,
                                    k + tok.len(),
                                ));
                                assert(matches_at(inner, tok, k - 1));
                                assert(!occurs_in(token(b[j].0), inner));
                            } else {
                                lemma_literal_token_stands(text, b, j);
                            }
                        }
                    }
                }
            },
        }
    }
}

/// Where the scan copies the first character of a text and the expansion
/// starts with the token of a binding, the token stands at the start of
/// the text itself.
proof fn lemma_literal_token_stands(text: Seq<char>, b: Seq<Binding>, j: int)
    requires
        plain_bindings(b),
        placeholders_apart(text),
        0 <= j < b.len(),
        text.len() > 0,
        first_token_at(text, b) is None,
        matches_at(expand(text, b), token(b[j].0), 0),
    ensures
        matches_at(text, token(b[j].0), 0),
{
    let out = expand(text, b);
    let name = b[j].0;
    let tok = token(name);
    let rest = text.skip(1);
    let inner = expand(rest, b);
    assert(out == seq![text[0]] + inner);
    assert(tok.len() == name.len() + 3);
    assert(tok[0] == '$' && tok[1] == '{' && tok[name.len() as int + 2] == '}');
    assert forall|k: int| 0 <= k < tok.len() implies out[k] == tok[k] by {
        assert(out.subrange(0, tok.len() as int)[k] == out[k]);
    }
    assert(text[0] == '$');
    assert(inner[0] == out[1]);
    assert(plain_bindings(b));
    if rest.len() == 0 {
        assert(inner.len() == 0);
    } else {
        lemma_first_token_at(rest, b);
        match first_token_at(rest, b) {
            Some(i) => {
                assert(plain_value(b[i].1));
                assert(inner == b[i].1 + expand(rest.skip(token(b[i].0).len() as int), b));
                assert(inner[0] == b[i].1[0]);
            },
            None => {
                let u = rest.skip(1);
                let deep = expand(u, b);
                assert(inner == seq![rest[0]] + deep);
                assert(rest[0] == '{');
                assert(text[1] == '{');
                assert(opens_at(text, 0));
                assert(closed_before(u)) by {
                    assert forall|r: int| #[trigger] opens_at(u, r) implies exists|q: int|
                        0 <= q < r && #[trigger] u[q] == '}' by {
                        assert(opens_at(text, r + 2));
                        let q = choose|q: int| 0 < q < r + 2 && #[trigger] text[q] == '}';
                        assert(u[q - 2] == '}');
                    }
                }
                assert(closed_name(name));
                assert(deep.subrange(0, name.len() as int) =~= name) by {
                    assert forall|k: int| 0 <= k < name.len() implies deep.subrange(
                        0,
                        name.len() as int,
                    )[k] == name[k] by {
                        assert(deep[k] == inner[k + 1]);
                        assert(inner[k + 1] == out[k + 2]);
                        assert(tok[k + 2] == name[k]);
                    }
                }
                assert(deep[name.len() as int] == out[name.len() as int + 2]);
                lemma_expand_copies_to_first_close(u, b, name);
                assert(text.subrange(0, tok.len() as int) =~= tok) by {
                    assert forall|k: int| 0 <= k < tok.len() implies text.subrange(
                        0,
                        tok.len() as int,
                    )[k] == tok[k] by {
                        if 2 <= k < name.len() + 2 {
                            assert(u.subrange(0, name.len() as int)[k - 2] == u[k - 2]);
                            assert(text[k] == u[k - 2]);
                            assert(tok[k] == name[k - 2]);
                        } else if k == name.len() + 2 {
                            assert(text[k] == u[k - 2]);
                        }
                    }
                }
            },
        }
    }
}

/// Idempotence: with plain bindings, expanding a text in which the
/// placeholders stand apart a second time changes nothing.
pub proof fn lemma_expand_plain_idempotent(text: Seq<char>, b: Seq<Binding>)
    requires
        plain_bindings(b),
        placeholders_apart(text),
    ensures
        expand(expand(text, b), b) == expand(text, b),
{
    lemma_expand_plain_token_free(text, b);
    lemma_expand_token_free(expand(text, b), b);
}

/// With a single binding the scan is one pass of replacing the binding's
/// token by its value.
pub proof fn lemma_expand_single(text: Seq<char>, name: Seq<char>, value: Seq<char>)
    ensures
        expand(text, seq![(name, value)]) == replace_all(text, token(name), value),
    decreases text.len(),
{
    let b = seq![(name, value)];
    let tok = token(name);
    assert(b.skip(1) =~= Seq::<Binding>::empty());
    assert(first_token_at(text, b.skip(1)) is None);
    if text.len() == 0 {
    } else if matches_at(text, tok, 0) {
        lemma_expand_single(text.skip(tok.len() as int), name, value);
    } else {
        let rest = text.skip(1);
        lemma_expand_single(rest, name, value);
        if text.len() < tok.len() {
            lemma_replace_all_short(rest, tok, value);
            assert(seq![text[0]] + rest =~= text);
        }
    }
}

/// With a single binding, expanding twice equals expanding once exactly
/// when the first expansion holds no token of the binding, or the binding's
/// value is its own token.
pub proof fn lemma_expand_single_idempotent_iff(
    text: Seq<char>,
    name: Seq<char>,
    value: Seq<char>,
)
    ensures
        ({
            let b = seq![(name, value)];
            (expand(expand(text, b), b) == expand(text, b)) <==> (value == token(name)
                || !occurs_in(token(name), expand(text, b)))
        }),
{
    let b = seq![(name, value)];
    let once = expand(text, b);
    lemma_expand_single(once, name, value);
    if value == token(name) {
        lemma_replace_all_same(once, token(name));
    } else if !occurs_in(token(name), once) {
        lemma_replace_all_absent(once, token(name), value);
    } else {
        lemma_replace_all_changes(once, token(name), value);
    }
}

/// Replacing a pattern by itself changes nothing.
pub proof fn lemma_replace_all_same(text: Seq<char>, pat: Seq<char>)
    ensures
        replace_all(text, pat, pat) == text,
    decreases text.len(),
{
    if pat.len() == 0 || text.len() < pat.len() {
    } else if matches_at(text, pat, 0) {
        lemma_replace_all_same(text.skip(pat.len() as int), pat);
        assert(text =~= pat + text.skip(pat.len() as int));
    } else {
        lemma_replace_all_same(text.skip(1), pat);
        assert(text =~= seq![text[0]] + text.skip(1));
    }
}

/// An environment: names bound to values, each name at most once, in the
/// order in which the names were first set.
#[derive(Debug, PartialEq, Eq)]
pub struct EnvMap {
    entries: Vec<(String, String)>,
}

impl View for EnvMap {
    type V = Seq<Binding>;

    closed spec fn view(&self) -> Seq<Binding> {
        self.entries.deep_view()
    }
}

impl DeepView for EnvMap {
    type V = Seq<Binding>;

    open spec fn deep_view(&self) -> Seq<Binding> {
        self@
    }
}

impl EnvMap {
    /// Well-formedness: no name is bound twice. Every constructor
    /// establishes it and every method preserves it.
    pub open spec fn wf(&self) -> bool {
        keys_distinct(self@)
    }

    /// The empty environment.
    pub fn new() -> (r: Self)
        ensures
            r@ == Seq::<Binding>::empty(),
            r.wf(),
    {
        let r = EnvMap { entries: Vec::new() };
        assert(r.entries.deep_view() =~= Seq::<Binding>::empty());
        r
    }

    /// The number of names bound.
    pub fn len(&self) -> (r: usize)
        ensures
            r == self@.len(),
    {
        self.entries.len()
    }

    /// Whether no name is bound.
    pub fn is_empty(&self) -> (r: bool)
        ensures
            r == (self@.len() == 0),
    {
        self.entries.len() == 0
    }

    /// The position of the binding of `name`, or `len()` if there is none.
    fn position(&self, name: &str) -> (r: usize)
        ensures
            r == index_of_key(self@, name@),
            r <= self@.len(),
    {
        let mut i: usize = 0;
        while i < self.entries.len()
            invariant
                i <= self.entries.len(),
                forall|j: int| 0 <= j < i ==> self@[j].0 != name@,
            decreases self.entries.len() - i,
        {
            if same_text(self.entries[i].0.as_str(), name) {
                proof {
                    lemma_index_of_key_is(self@, name@, i as int);
                }
                return i;
            }
            i += 1;
        }
        proof {
            lemma_index_of_key_is(self@, name@, i as int);
        }
        i
    }

    /// The value bound to `name`, if any.
    pub fn get(&self, name: &str) -> (r: Option<&String>)
        ensures
            r.deep_view() == value_at_key(self@, name@),
    {
        let i = self.position(name);
        if i < self.entries.len() {
            Some(&self.entries[i].1)
        } else {
            None
        }
    }

    /// Whether `name` is bound.
    pub fn contains_key(&self, name: &str) -> (r: bool)
        ensures
            r == value_at_key(self@, name@).is_some(),
    {
        let i = self.position(name);
        i < self.entries.len()
    }

    /// Binds `name` to `value`, replacing an earlier value of `name`.
    pub fn insert(&mut self, name: String, value: String)
        ensures
            final(self)@ == set_key(old(self)@, name@, value@),
            old(self).wf() ==> final(self).wf(),
    {
        proof {
            if self.wf() {
                lemma_set_key_distinct(self@, name@, value@);
            }
        }
        let i = self.position(name.as_str());
        if i < self.entries.len() {
            self.entries[i] = (name, value);
        } else {
            self.entries.push((name, value));
        }
        assert(self.entries.deep_view() =~= set_key(old(self)@, name@, value@));
    }

    /// Sets each variable of `vars`, in order.
    pub fn overlay(&mut self, vars: &Vec<EnvVar>)
        ensures
            final(self)@ == overlay(old(self)@, vars.deep_view()),
            old(self).wf() ==> final(self).wf(),
    {
        let mut i: usize = 0;
        while i < vars.len()
            invariant
                i <= vars.len(),
                self@ == overlay(old(self)@, vars.deep_view().take(i as int)),
                old(self).wf() ==> self.wf(),
            decreases vars.len() - i,
        {
            self.insert(vars[i].name.clone(), vars[i].value.clone());
            i += 1;
            proof {
                let all = vars.deep_view();
                assert(all.take(i as int).drop_last() =~= all.take(i - 1));
                assert(all.take(i as int).last() == vars@[i - 1].deep_view());
            }
        }
        assert(vars.deep_view().take(vars.len() as int) =~= vars.deep_view());
    }

    /// Sets each variable of `vars`, in order, to its value expanded against
    /// `expansion`.
    pub fn overlay_expanded(&mut self, vars: &Vec<EnvVar>, expansion: &EnvMap)
        ensures
            final(self)@ == overlay(old(self)@, expand_vars(vars.deep_view(), expansion@)),
            old(self).wf() ==> final(self).wf(),
    {
        let ghost all = expand_vars(vars.deep_view(), expansion@);
        let mut i: usize = 0;
        while i < vars.len()
            invariant
                i <= vars.len(),
                all == expand_vars(vars.deep_view(), expansion@),
                self@ == overlay(old(self)@, all.take(i as int)),
                old(self).wf() ==> self.wf(),
            decreases vars.len() - i,
        {
            let value = expand_tokens_with_map(vars[i].value.as_str(), expansion);
            self.insert(vars[i].name.clone(), value);
            i += 1;
            proof {
                assert(all.take(i as int).drop_last() =~= all.take(i - 1));
                assert(all.take(i as int).last() == all[i - 1]);
                assert(vars.deep_view()[i - 1] == vars@[i - 1]@);
            }
        }
        assert(all.take(vars.len() as int) =~= all);
    }

    /// The environment that holds the given pairs, set in order: a later
    /// pair replaces an earlier one with the same name.
    pub fn from_pairs(pairs: Vec<(String, String)>) -> (r: Self)
        ensures
            r@ == overlay(Seq::<Binding>::empty(), pair_vars(pairs.deep_view())),
            r.wf(),
    {
        let mut out = EnvMap::new();
        let mut i: usize = 0;
        while i < pairs.len()
            invariant
                i <= pairs.len(),
                out.wf(),
                out@ == overlay(
                    Seq::<Binding>::empty(),
                    pair_vars(pairs.deep_view()).take(i as int),
                ),
            decreases pairs.len() - i,
        {
            out.insert(pairs[i].0.clone(), pairs[i].1.clone());
            i += 1;
            proof {
                let all = pair_vars(pairs.deep_view());
                assert(all.take(i as int).drop_last() =~= all.take(i - 1));
            }
        }
        assert(pair_vars(pairs.deep_view()).take(pairs.len() as int) =~= pair_vars(
            pairs.deep_view(),
        ));
        out
    }

    /// The bindings as pairs, in order.
    pub fn to_pairs(&self) -> (r: Vec<(String, String)>)
        ensures
            r.deep_view() == self@,
    {
        let mut out: Vec<(String, String)> = Vec::new();
        let mut i: usize = 0;
        while i < self.entries.len()
            invariant
                i <= self.entries.len(),
                out.len() == i,
                forall|j: int| 0 <= j < i ==> out@[j].deep_view() == self.entries@[j].deep_view(),
            decreases self.entries.len() - i,
        {
            out.push((self.entries[i].0.clone(), self.entries[i].1.clone()));
            i += 1;
        }
        assert(out.deep_view() =~= self.entries.deep_view());
        out
    }

    /// A copy of the environment.
    pub fn duplicate(&self) -> (r: Self)
        ensures
            r@ == self@,
    {
        EnvMap { entries: self.to_pairs() }
    }
}

/// Pairs read as variables without an operation.
pub open spec fn pair_vars(pairs: Seq<Binding>) -> Seq<EnvVarModel> {
    Seq::new(
        pairs.len(),
        |i: int| EnvVarModel { name: pairs[i].0, value: pairs[i].1, operation: None },
    )
}

/// The characters of the placeholder `${name}`.
pub fn token_chars(name: &str) -> (r: Vec<char>)
    ensures
        r@ == token(name@),
{
    let mut out: Vec<char> = Vec::new();
    out.push('$');
    out.push('{');
    let n = chars_of(name);
    append_chars(&mut out, &n);
    out.push('}');
    assert(out@ =~= token(name@));
    out
}

/// The index of the first token in the table that stands at index `i` of
/// the text, or the size of the table if none does.
fn first_token_index(text: &Vec<char>, i: usize, tokens: &Vec<Vec<char>>) -> (r: usize)
    ensures
        r <= tokens.len(),
        r < tokens.len() ==> matches_at(text@, tokens@[r as int]@, i as int),
        forall|k: int| 0 <= k < r ==> !matches_at(text@, tokens@[k]@, i as int),
{
    let mut j: usize = 0;
    while j < tokens.len()
        invariant
            j <= tokens.len(),
            forall|k: int| 0 <= k < j ==> !matches_at(text@, tokens@[k]@, i as int),
        decreases tokens.len() - j,
    {
        if starts_with_at(text, i, &tokens[j]) {
            return j;
        }
        j += 1;
    }
    j
}

/// A pattern stands at index `i` of a text exactly when it stands at the
/// start of the text from `i` on.
pub proof fn lemma_matches_at_skip(text: Seq<char>, pat: Seq<char>, i: int)
    requires
        0 <= i <= text.len(),
    ensures
        matches_at(text, pat, i) == matches_at(text.skip(i), pat, 0),
{
    if i + pat.len() <= text.len() {
        assert(text.skip(i).subrange(0, pat.len() as int) == text.subrange(i, i + pat.len()));
    }
}

/// Expands `${NAME}` placeholders in `input` with the bindings of `vars`,
/// in one scan from left to right. A placeholder whose name is not bound
/// stays as it is, and a value that was put in is not scanned. With plain
/// bindings and an input in which the placeholders stand apart, the result
/// holds no token of the bindings, so that expanding it again changes
/// nothing.
pub fn expand_tokens_with_map(input: &str, vars: &EnvMap) -> (r: String)
    ensures
        r@ == expand(input@, vars@),
        plain_bindings(vars@) && placeholders_apart(input@) ==> token_free(r@, vars@) && expand(
            r@,
            vars@,
        ) == r@,
{
    let text = chars_of(input);
    let mut tokens: Vec<Vec<char>> = Vec::new();
    let mut values: Vec<Vec<char>> = Vec::new();
    let mut n: usize = 0;
    while n < vars.entries.len()
        invariant
            n <= vars.entries.len(),
            tokens.len() == n,
            values.len() == n,
            forall|k: int| 0 <= k < n ==> tokens@[k]@ == token(vars@[k].0),
            forall|k: int| 0 <= k < n ==> values@[k]@ == vars@[k].1,
        decreases vars.entries.len() - n,
    {
        tokens.push(token_chars(vars.entries[n].0.as_str()));
        values.push(chars_of(vars.entries[n].1.as_str()));
        n += 1;
    }
    let mut out: Vec<char> = Vec::new();
    let mut i: usize = 0;
    assert(text@.skip(0) == text@);
    while i < text.len()
        invariant
            i <= text.len(),
            text@ == input@,
            tokens.len() == vars@.len(),
            values.len() == vars@.len(),
            forall|k: int| 0 <= k < vars@.len() ==> tokens@[k]@ == token(vars@[k].0),
            forall|k: int| 0 <= k < vars@.len() ==> values@[k]@ == vars@[k].1,
            expand(text@, vars@) == out@ + expand(text@.skip(i as int), vars@),
        decreases text.len() - i,
    {
        let ghost rest = text@.skip(i as int);
        let ghost before = out@;
        let j = first_token_index(&text, i, &tokens);
        proof {
            assert forall|k: int| 0 <= k < j implies !matches_at(
                rest,
                token(#[trigger] vars@[k].0),
                0,
            ) by {
                lemma_matches_at_skip(text@, tokens@[k]@, i as int);
            }
            if j < tokens.len() {
                lemma_matches_at_skip(text@, tokens@[j as int]@, i as int);
            }
            lemma_first_token_is(rest, vars@, j as int);
        }
        if j < tokens.len() {
            let ghost width = tokens@[j as int]@.len();
            assert(rest.skip(width as int) == text@.skip(i + width));
            append_chars(&mut out, &values[j]);
            i += tokens[j].len();
            assert(out@ + expand(text@.skip(i as int), vars@) == before + (vars@[j as int].1
                + expand(text@.skip(i as int), vars@)));
        } else {
            assert(rest.skip(1) == text@.skip(i + 1));
            out.push(text[i]);
            i += 1;
            assert(out@ + expand(text@.skip(i as int), vars@) == before + (seq![rest[0]] + expand(
                text@.skip(i as int),
                vars@,
            )));
        }
    }
    assert(text@.skip(text.len() as int).len() == 0);
    proof {
        if plain_bindings(vars@) && placeholders_apart(input@) {
            lemma_expand_plain_idempotent(input@, vars@);
            lemma_expand_plain_token_free(input@, vars@);
        }
    }
    string_of(&out)
}

/// Expands `${NAME}` placeholders in `input` with the given system
/// environment.
pub fn expand_env_vars(input: &str, system: &EnvMap) -> (r: String)
    ensures
        r@ == expand(input@, system@),
{
    expand_tokens_with_map(input, system)
}

/// The tree with every string leaf expanded against `b`. Keys of objects,
/// numbers, booleans and nulls stay as they are, and so does the shape.
pub open spec fn expand_tree(v: JsonModel, b: Seq<Binding>) -> JsonModel
    decreases v,
{
    match v {
        JsonModel::Text(s) => JsonModel::Text(expand(s, b)),
        JsonModel::Array(items) => JsonModel::Array(
            Seq::new(
                items.len(),
                |i: int|
                    if 0 <= i < items.len() {
                        expand_tree(items[i], b)
                    } else {
                        JsonModel::Null
                    },
            ),
        ),
        JsonModel::Object(members) => JsonModel::Object(
            Seq::new(
                members.len(),
                |i: int|
                    if 0 <= i < members.len() {
                        (members[i].0, expand_tree(members[i].1, b))
                    } else {
                        (Seq::empty(), JsonModel::Null)
                    },
            ),
        ),
        _ => v,
    }
}

/// In every string leaf of the tree the placeholders stand apart.
pub open spec fn texts_apart(v: JsonModel) -> bool
    decreases v,
{
    match v {
        JsonModel::Text(s) => placeholders_apart(s),
        JsonModel::Array(items) => forall|i: int|
            0 <= i < items.len() ==> texts_apart(#[trigger] items[i]),
        JsonModel::Object(members) => forall|i: int|
            0 <= i < members.len() ==> texts_apart((#[trigger] members[i]).1),
        _ => true,
    }
}

/// No string leaf of the tree holds a token of the bindings.
pub open spec fn texts_token_free(v: JsonModel, b: Seq<Binding>) -> bool
    decreases v,
{
    match v {
        JsonModel::Text(s) => token_free(s, b),
        JsonModel::Array(items) => forall|i: int|
            0 <= i < items.len() ==> texts_token_free(#[trigger] items[i], b),
        JsonModel::Object(members) => forall|i: int|
            0 <= i < members.len() ==> texts_token_free((#[trigger] members[i]).1, b),
        _ => true,
    }
}

/// Resolution: with plain bindings, a tree in whose string leaves the
/// placeholders stand apart has, once expanded, no string leaf that holds
/// a token of the bindings; only placeholders that no binding names are
/// left.
pub proof fn lemma_expand_tree_token_free(v: JsonModel, b: Seq<Binding>)
    requires
        plain_bindings(b),
        texts_apart(v),
    ensures
        texts_token_free(expand_tree(v, b), b),
    decreases v,
{
    match v {
        JsonModel::Text(s) => {
            lemma_expand_plain_token_free(s, b);
        },
        JsonModel::Array(items) => {
            let out = expand_tree(v, b)->Array_0;
            assert forall|i: int| 0 <= i < out.len() implies texts_token_free(
                #[trigger] out[i],
                b,
            ) by {
                assert(texts_apart(items[i]));
                lemma_expand_tree_token_free(items[i], b);
            }
        },
        JsonModel::Object(members) => {
            let out = expand_tree(v, b)->Object_0;
            assert forall|i: int| 0 <= i < out.len() implies texts_token_free(
                (#[trigger] out[i]).1,
                b,
            ) by {
                assert(texts_apart(members[i].1));
                lemma_expand_tree_token_free(members[i].1, b);
            }
        },
        _ => {},
    }
}

/// Expands `${NAME}` placeholders in every string leaf of a tree, in
/// place.
pub fn resolve_env_vars_recursive_with_map(value: &mut Json, env_map: &EnvMap)
    ensures
        final(value)@ == expand_tree(old(value)@, env_map@),
    decreases *old(value),
{
    match value {
        Json::Text(s) => {
            *s = expand_tokens_with_map(s.as_str(), env_map);
        },
        Json::Array(items) => {
            let ghost before = *items;
            proof {
                lemma_array_view(*items);
            }
            let mut i: usize = 0;
            while i < items.len()
                invariant
                    i <= items.len(),
                    items.len() == before.len(),
                    forall|n: int|
                        0 <= n < before.len() ==> decreases_to!(*old(value) => before[n]),
                    forall|j: int| 0 <= j < i ==> items[j]@ == expand_tree(before[j]@, env_map@),
                    forall|j: int| i <= j < items.len() ==> items[j] == before[j],
                decreases items.len() - i,
            {
                resolve_env_vars_recursive_with_map(&mut items[i], env_map);
                i += 1;
            }
            proof {
                lemma_array_view(*items);
                assert(items.deep_view() =~= expand_tree(old(value)@, env_map@)->Array_0);
            }
        },
        Json::Object(members) => {
            let ghost before = *members;
            proof {
                lemma_object_view(*members);
            }
            let mut i: usize = 0;
            while i < members.len()
                invariant
                    i <= members.len(),
                    members.len() == before.len(),
                    forall|n: int|
                        0 <= n < before.len() ==> decreases_to!(*old(value) => before[n].1),
                    forall|j: int|
                        0 <= j < i ==> members[j].0@ == before[j].0@ && members[j].1@
                            == expand_tree(before[j].1@, env_map@),
                    forall|j: int| i <= j < members.len() ==> members[j] == before[j],
                decreases members.len() - i,
            {
                assert(members[i as int] == before[i as int]);
                assert(decreases_to!(*old(value) => before[i as int].1));
                resolve_env_vars_recursive_with_map(&mut members[i].1, env_map);
                i += 1;
            }
            proof {
                lemma_object_view(*members);
                assert(members.deep_view() =~= expand_tree(old(value)@, env_map@)->Object_0);
            }
        },
        _ => {},
    }
}

/// Expands `${NAME}` placeholders in every string leaf of a tree against
/// the given system environment, in place.
pub fn resolve_env_vars_recursive(value: &mut Json, system: &EnvMap)
    ensures
        final(value)@ == expand_tree(old(value)@, system@),
{
    resolve_env_vars_recursive_with_map(value, system);
}

/// The variable that an element of an `env` array declares: an object
/// declares one, with each field expanded against `b`; a missing name or
/// value is empty and a missing operation is `set`. Anything else declares
/// none.
pub open spec fn env_var_of(item: JsonModel, b: Seq<Binding>) -> Option<EnvVarModel> {
    if item is Object {
        Some(
            EnvVarModel {
                name: match item.str_at("name"@) {
                    Some(s) => expand(s, b),
                    None => Seq::empty(),
                },
                value: match item.str_at("value"@) {
                    Some(s) => expand(s, b),
                    None => Seq::empty(),
                },
                operation: Some(
                    match item.str_at("operation"@) {
                        Some(s) => expand(s, b),
                        None => "set"@,
                    },
                ),
            },
        )
    } else {
        None
    }
}

/// [`env_var_of`] as a function of the element.
pub open spec fn env_var_fn(b: Seq<Binding>) -> spec_fn(JsonModel) -> Option<EnvVarModel> {
    |item: JsonModel| env_var_of(item, b)
}

/// The variables that an `env` value declares: those of its elements, in
/// order, if it is an array, and none otherwise.
pub open spec fn env_vars_of(v: JsonModel, b: Seq<Binding>) -> Seq<EnvVarModel> {
    match v {
        JsonModel::Array(items) => filter_map(items, env_var_fn(b)),
        _ => Seq::empty(),
    }
}

/// The text of a member expanded against the environment, if the member is
/// there and is a string.
fn expanded_str_at(item: &Json, key: &str, system: &EnvMap) -> (r: Option<String>)
    ensures
        r.deep_view() == match item@.str_at(key@) {
            Some(s) => Some(expand(s, system@)),
            None => None,
        },
{
    match item.str_at(key) {
        Some(s) => Some(expand_tokens_with_map(s.as_str(), system)),
        None => None,
    }
}

/// Reads one element of an `env` array.
pub fn env_var_from_json(item: &Json, system: &EnvMap) -> (r: Option<EnvVar>)
    ensures
        r.deep_view() == env_var_of(item@, system@),
{
    if item.as_object().is_none() {
        return None;
    }
    let name = match expanded_str_at(item, "name", system) {
        Some(s) => s,
        None => String::new(),
    };
    let value = match expanded_str_at(item, "value", system) {
        Some(s) => s,
        None => String::new(),
    };
    let operation = match expanded_str_at(item, "operation", system) {
        Some(s) => s,
        None => "set".to_string(),
    };
    Some(EnvVar { name, value, operation: Some(operation) })
}

/// Reads an `env` array into variables. Each field is expanded against the
/// system environment; elements that are not objects are passed over.
pub fn parse_env_vars_from_json(env_array: &Json, system: &EnvMap) -> (r: Vec<EnvVar>)
    ensures
        r.deep_view() == env_vars_of(env_array@, system@),
{
    let mut out: Vec<EnvVar> = Vec::new();
    match env_array.as_array() {
        Some(items) => {
            let mut i: usize = 0;
            assert(out.deep_view() =~= Seq::<EnvVarModel>::empty());
            while i < items.len()
                invariant
                    i <= items.len(),
                    out.deep_view() == filter_map_first(
                        items.deep_view(),
                        env_var_fn(system@),
                        i as nat,
                    ),
                decreases items.len() - i,
            {
                let ghost before = out.deep_view();
                assert(items.deep_view()[i as int] == items[i as int]@);
                match env_var_from_json(&items[i], system) {
                    Some(v) => {
                        out.push(v);
                        assert(out.deep_view() =~= before.push(v@));
                    },
                    None => {},
                }
                i += 1;
            }
        },
        None => {
            assert(out.deep_view() =~= Seq::<EnvVarModel>::empty());
        },
    }
    out
}

/// The variables of a preset, or none where there is no preset.
pub open spec fn preset_vars(preset: Option<EnvPresetModel>) -> Seq<EnvVarModel> {
    match preset {
        Some(p) => p.env,
        None => Seq::empty(),
    }
}

/// The system environment with the variables of the preset, if there is
/// one, laid over it: the preset wins.
pub fn get_env_vars_with_preset(preset: Option<&EnvPreset>, system: &EnvMap) -> (r: EnvMap)
    ensures
        r@ == overlay(system@, preset_vars(preset.deep_view())),
        system.wf() ==> r.wf(),
{
    let mut out = system.duplicate();
    match preset {
        Some(p) => {
            out.overlay(&p.env);
        },
        None => {},
    }
    out
}

} // verus!

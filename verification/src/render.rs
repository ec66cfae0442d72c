//! Template expressions (`{{key}}`, `{{key|filter}}`) and token
//! substitution for scaffolded projects.
use vstd::prelude::*;
use vstd::utf8::encode_utf8;
use crate::casing::{
    heck_kebab, heck_pascal, heck_shouty_snake, heck_snake, kebab_case, pascal_case,
    shouty_snake_case, snake_case,
};
use crate::strmap::StrMap;
use crate::text::{
    chars_eq, chars_of, copy_string, extend_chars, extend_range, find, find_char,
    find_chars_from, find_from, join_with, matches_at, replace, replace_chars, replace_empty,
    replace_nonempty, slice_chars, string_of,
    trim, trim_chars,
};

verus! {

// ---------------------------------------------------------------------
// Expressions
// ---------------------------------------------------------------------

/// What rendering an expression comes to.
pub enum RenderOutcome {
    /// The rendered text.
    Text(Seq<char>),
    /// A `{{` without a closing `}}`.
    Unterminated,
    /// A filter that is not one of `kebab`, `snake`, `pascal`, `upper`.
    UnknownFilter(Seq<char>),
    /// A reference to a variable that has no value.
    UnknownVariable(Seq<char>),
}

/// Why an expression could not be rendered.
pub enum RenderError {
    /// A `{{` without a closing `}}`; holds the whole expression.
    Unterminated { expr: String },
    /// An unknown filter name.
    UnknownFilter { filter: String },
    /// A variable that is not defined.
    UnknownVariable { key: String },
}

pub open spec fn open_marker() -> Seq<char> {
    seq!['{', '{']
}

pub open spec fn close_marker() -> Seq<char> {
    seq!['}', '}']
}

/// `key` or `key|filter`, both parts trimmed (`str::split_once('|')`).
pub open spec fn split_key_filter(inner: Seq<char>) -> (Seq<char>, Option<Seq<char>>) {
    match find(inner, seq!['|']) {
        Some(i) => (trim(inner.take(i)), Some(trim(inner.skip(i + 1)))),
        None => (inner, None),
    }
}

/// A filter applied to a value: `Err` holds an unknown filter's name.
pub open spec fn filter_spec(value: Seq<char>, filter: Option<Seq<char>>) -> Result<
    Seq<char>,
    Seq<char>,
> {
    match filter {
        None => Ok(value),
        Some(f) => if f == "kebab"@ {
            Ok(heck_kebab(value))
        } else if f == "snake"@ {
            Ok(heck_snake(value))
        } else if f == "pascal"@ {
            Ok(heck_pascal(value))
        } else if f == "upper"@ {
            Ok(heck_shouty_snake(value))
        } else {
            Err(f)
        },
    }
}

pub proof fn lemma_find_from_bounds(s: Seq<char>, pat: Seq<char>, i: int)
    ensures
        find_from(s, pat, i) matches Some(k) ==> i <= k && k + pat.len() <= s.len() && (
        pat.len() == 0 || matches_at(s, pat, k)),
    decreases s.len() - i,
{
    if !(i < 0 || i + pat.len() > s.len()) && !(pat.len() == 0 || matches_at(s, pat, i)) {
        lemma_find_from_bounds(s, pat, i + 1);
    }
}

/// The text `rest` renders to with variables `vars`, scanning left to
/// right and stopping at the first problem.
pub open spec fn render_spec(rest: Seq<char>, vars: StrMap) -> RenderOutcome
    decreases rest.len(),
{
    match find(rest, open_marker()) {
        None => RenderOutcome::Text(rest),
        Some(start) => {
            let after = rest.skip(start + 2);
            match find(after, close_marker()) {
                None => RenderOutcome::Unterminated,
                Some(end) => {
                    let (key, filter) = split_key_filter(trim(after.take(end)));
                    match vars.lookup(key) {
                        None => RenderOutcome::UnknownVariable(key),
                        Some(value) => match filter_spec(value, filter) {
                            Err(f) => RenderOutcome::UnknownFilter(f),
                            Ok(v) => {
                                proof {
                                    lemma_find_from_bounds(rest, open_marker(), 0);
                                    lemma_find_from_bounds(after, close_marker(), 0);
                                }
                                match render_spec(after.skip(end + 2), vars) {
                                    RenderOutcome::Text(t) => RenderOutcome::Text(
                                        rest.take(start) + v + t,
                                    ),
                                    other => other,
                                }
                            },
                        },
                    }
                },
            }
        },
    }
}

pub open spec fn str_opt_view(o: Option<&str>) -> Option<Seq<char>> {
    match o {
        Some(f) => Some(f@),
        None => None,
    }
}

pub open spec fn chars_opt_view(o: Option<Vec<char>>) -> Option<Seq<char>> {
    match o {
        Some(f) => Some(f@),
        None => None,
    }
}

/// `prefix` put in front of a rendered text; failures stay as they are.
pub open spec fn prefixed(prefix: Seq<char>, o: RenderOutcome) -> RenderOutcome {
    match o {
        RenderOutcome::Text(t) => RenderOutcome::Text(prefix + t),
        other => other,
    }
}

/// The result of rendering agrees with `render_spec`.
pub open spec fn render_result_agrees(
    r: Result<String, RenderError>,
    expr: Seq<char>,
    vars: StrMap,
) -> bool {
    match r {
        Ok(s) => render_spec(expr, vars) == RenderOutcome::Text(s@),
        Err(RenderError::Unterminated { expr: e }) => render_spec(expr, vars)
            is Unterminated && e@ == expr,
        Err(RenderError::UnknownFilter { filter }) => render_spec(expr, vars)
            == RenderOutcome::UnknownFilter(filter@),
        Err(RenderError::UnknownVariable { key }) => render_spec(expr, vars)
            == RenderOutcome::UnknownVariable(key@),
    }
}

/// Applies a filter (`kebab`, `snake`, `pascal`, `upper`) to a value.
pub fn apply_filter(value: &str, filter: Option<&str>) -> (r: Result<String, RenderError>)
    ensures
        match filter_spec(value@, str_opt_view(filter)) {
            Ok(v) => r matches Ok(s) && s@ == v,
            Err(f) => r matches Err(RenderError::UnknownFilter { filter: g }) && g@ == f,
        },
{
    match filter {
        None => Ok(copy_string(value)),
        Some(f) => {
            let fc = chars_of(f);
            if chars_eq(&fc, &chars_of("kebab")) {
                Ok(kebab_case(value))
            } else if chars_eq(&fc, &chars_of("snake")) {
                Ok(snake_case(value))
            } else if chars_eq(&fc, &chars_of("pascal")) {
                Ok(pascal_case(value))
            } else if chars_eq(&fc, &chars_of("upper")) {
                Ok(shouty_snake_case(value))
            } else {
                Err(RenderError::UnknownFilter { filter: copy_string(f) })
            }
        },
    }
}

/// Renders `expr`, resolving `{{key}}` and `{{key|filter}}` against
/// `vars`. An undefined variable is reported as an error.
pub fn render(expr: &str, vars: &StrMap) -> (r: Result<String, RenderError>)
    requires
        vars.wf(),
    ensures
        render_result_agrees(r, expr@, *vars),
{
    let ex = chars_of(expr);
    let open: Vec<char> = vec!['{', '{'];
    let close: Vec<char> = vec!['}', '}'];
    let bar: Vec<char> = vec!['|'];
    assert(open@ =~= open_marker());
    assert(close@ =~= close_marker());
    let mut out: Vec<char> = Vec::new();
    let mut rest: Vec<char> = slice_chars(&ex, 0, ex.len());
    assert(rest@ =~= expr@);
    assert(out@ + rest@ =~= rest@);
    loop
        invariant
            vars.wf(),
            open@ == open_marker(),
            close@ == close_marker(),
            render_spec(expr@, *vars) == prefixed(out@, render_spec(rest@, *vars)),
        decreases rest.len(),
    {
        let start = match find_chars_from(&rest, &open, 0) {
            None => {
                extend_chars(&mut out, &rest);
                return Ok(string_of(&out));
            },
            Some(s) => s,
        };
        proof {
            lemma_find_from_bounds(rest@, open@, 0);
        }
        let after = slice_chars(&rest, start + 2, rest.len());
        assert(after@ =~= rest@.skip(start + 2));
        let end = match find_chars_from(&after, &close, 0) {
            None => {
                return Err(RenderError::Unterminated { expr: copy_string(expr) });
            },
            Some(e) => e,
        };
        proof {
            lemma_find_from_bounds(after@, close@, 0);
        }
        let inner_raw = slice_chars(&after, 0, end);
        assert(inner_raw@ =~= after@.take(end as int));
        let inner = trim_chars(&inner_raw);
        let (key, filter): (Vec<char>, Option<Vec<char>>) = match find_char(&inner, '|') {
            Some(i) => {
                proof {
                    lemma_find_from_bounds(inner@, seq!['|'], 0);
                }
                let k = slice_chars(&inner, 0, i);
                let f = slice_chars(&inner, i + 1, inner.len());
                assert(k@ =~= inner@.take(i as int));
                assert(f@ =~= inner@.skip(i + 1));
                (trim_chars(&k), Some(trim_chars(&f)))
            },
            None => (inner, None),
        };
        assert(split_key_filter(trim(after@.take(end as int))) == (
            key@,
            chars_opt_view(filter),
        ));
        let key_s = string_of(&key);
        let value = match vars.get(key_s.as_str()) {
            None => {
                return Err(RenderError::UnknownVariable { key: key_s });
            },
            Some(v) => v,
        };
        let filtered = match filter {
            None => apply_filter(value.as_str(), None),
            Some(f) => {
                let fs = string_of(&f);
                apply_filter(value.as_str(), Some(fs.as_str()))
            },
        };
        let v = match filtered {
            Ok(v) => v,
            Err(e) => {
                return Err(e);
            },
        };
        let ghost old_out = out@;
        let ghost old_rest = rest@;
        extend_range(&mut out, &rest, 0, start);
        let vc = chars_of(v.as_str());
        extend_chars(&mut out, &vc);
        let next = slice_chars(&after, end + 2, after.len());
        proof {
            assert(next@ =~= after@.skip(end + 2));
            assert(old_rest.subrange(0, start as int) =~= old_rest.take(start as int));
            match render_spec(next@, *vars) {
                RenderOutcome::Text(t) => {
                    assert(old_out + (old_rest.take(start as int) + v@ + t) =~= out@ + t);
                },
                _ => {},
            }
        }
        rest = next;
    }
}

/// Renders `expr`, resolving `{{key}}` and `{{key|filter}}` against
/// `vars`. Every variable that rendering reaches must be defined.
pub fn render_expr(expr: &str, vars: &StrMap) -> (r: Result<String, RenderError>)
    requires
        vars.wf(),
        !(render_spec(expr@, *vars) is UnknownVariable),
    ensures
        render_result_agrees(r, expr@, *vars),
        !(r matches Err(RenderError::UnknownVariable { .. })),
{
    render(expr, vars)
}

// ---------------------------------------------------------------------
// Token substitution
// ---------------------------------------------------------------------

/// `String::len`: the length of the UTF-8 encoding.
pub open spec fn byte_len(s: Seq<char>) -> usize {
    encode_utf8(s).len() as usize
}

/// Inserts `e` into `sorted` after every entry whose key is at least as
/// long and before the first strictly shorter one.
pub open spec fn insert_longest_first(
    sorted: Seq<(Seq<char>, Seq<char>)>,
    e: (Seq<char>, Seq<char>),
) -> Seq<(Seq<char>, Seq<char>)>
    decreases sorted.len(),
{
    if sorted.len() == 0 {
        seq![e]
    } else if byte_len(sorted[0].0) < byte_len(e.0) {
        seq![e] + sorted
    } else {
        seq![sorted[0]] + insert_longest_first(sorted.drop_first(), e)
    }
}

/// A stable sort of `entries` by descending key length: the order in
/// which tokens are substituted.
pub open spec fn longest_first(entries: Seq<(Seq<char>, Seq<char>)>) -> Seq<
    (Seq<char>, Seq<char>),
>
    decreases entries.len(),
{
    if entries.len() == 0 {
        Seq::empty()
    } else {
        insert_longest_first(longest_first(entries.drop_last()), entries.last())
    }
}

/// Substitutes each (token, replacement) pair in turn.
pub open spec fn substitute_all(content: Seq<char>, order: Seq<(Seq<char>, Seq<char>)>) -> Seq<
    char,
>
    decreases order.len(),
{
    if order.len() == 0 {
        content
    } else {
        substitute_all(replace(content, order[0].0, order[0].1), order.drop_first())
    }
}

/// The result of substituting `tokens` into `content`.
pub open spec fn tokens_applied(content: Seq<char>, tokens: StrMap) -> Seq<char> {
    substitute_all(content, longest_first(tokens.entries()))
}

proof fn lemma_insert_longest_first_at(
    sorted: Seq<(Seq<char>, Seq<char>)>,
    e: (Seq<char>, Seq<char>),
    p: int,
)
    requires
        0 <= p <= sorted.len(),
        forall|j: int| 0 <= j < p ==> byte_len(#[trigger] sorted[j].0) >= byte_len(e.0),
        p < sorted.len() ==> byte_len(sorted[p].0) < byte_len(e.0),
    ensures
        insert_longest_first(sorted, e) == sorted.take(p) + seq![e] + sorted.skip(p),
    decreases sorted.len(),
{
    if sorted.len() == 0 {
        assert(sorted.take(p) + seq![e] + sorted.skip(p) =~= seq![e]);
    } else if p == 0 {
        assert(sorted.take(0) + seq![e] + sorted.skip(0) =~= seq![e] + sorted);
    } else {
        let t = sorted.drop_first();
        assert forall|j: int| 0 <= j < p - 1 implies byte_len(#[trigger] t[j].0) >= byte_len(e.0) by {
            assert(t[j] == sorted[j + 1]);
        }
        if p - 1 < t.len() {
            assert(t[p - 1] == sorted[p]);
        }
        lemma_insert_longest_first_at(t, e, p - 1);
        assert(seq![sorted[0]] + (t.take(p - 1) + seq![e] + t.skip(p - 1)) =~= sorted.take(p)
            + seq![e] + sorted.skip(p));
    }
}

/// Replaces every token of `tokens` in `content`, longer tokens first so
/// that `replace-me-foo` is replaced before its prefix `replace-me`.
pub fn apply_tokens(content: &str, tokens: &StrMap) -> (r: String)
    requires
        tokens.wf(),
    ensures
        r@ == tokens_applied(content@, *tokens),
{
    let n = tokens.len();
    let ghost es = tokens.entries();
    // indices of the entries, in substitution order
    let mut order: Vec<usize> = Vec::new();
    let mut i: usize = 0;
    while i < n
        invariant
            tokens.wf(),
            n == tokens.size(),
            es == tokens.entries(),
            i <= n,
            forall|j: int| 0 <= j < order.len() ==> #[trigger] order@[j] < i,
            order@.map_values(|k: usize| es[k as int]) == longest_first(es.take(i as int)),
        decreases n - i,
    {
        let len_i = tokens.key_at(i).as_str().len();
        let mut p: usize = 0;
        while p < order.len() && tokens.key_at(order[p]).as_str().len() >= len_i
            invariant
                tokens.wf(),
                n == tokens.size(),
                es == tokens.entries(),
                i < n,
                p <= order.len(),
                len_i == byte_len(es[i as int].0),
                forall|j: int| 0 <= j < order.len() ==> #[trigger] order@[j] < i,
                forall|j: int|
                    0 <= j < p ==> byte_len(#[trigger] es[order@[j] as int].0) >= len_i,
            decreases order.len() - p,
        {
            p += 1;
        }
        proof {
            let mapped = order@.map_values(|k: usize| es[k as int]);
            assert forall|j: int| 0 <= j < p implies byte_len(#[trigger] mapped[j].0) >= byte_len(
                es[i as int].0,
            ) by {
                assert(mapped[j] == es[order@[j] as int]);
            }
            if p < order.len() {
                assert(mapped[p as int] == es[order@[p as int] as int]);
            }
            lemma_insert_longest_first_at(mapped, es[i as int], p as int);
            assert(es.take(i + 1).drop_last() =~= es.take(i as int));
            assert(es.take(i + 1).last() == es[i as int]);
        }
        let ghost before = order@;
        order.insert(p, i);
        proof {
            assert(order@.map_values(|k: usize| es[k as int]) =~= before.map_values(
                |k: usize| es[k as int],
            ).take(p as int) + seq![es[i as int]] + before.map_values(|k: usize| es[k as int]).skip(
                p as int,
            ));
        }
        i += 1;
    }
    assert(es.take(n as int) =~= es);
    let mut out = chars_of(content);
    let mut j: usize = 0;
    let ghost ord = order@.map_values(|k: usize| es[k as int]);
    assert(ord.skip(0) =~= ord);
    while j < order.len()
        invariant
            tokens.wf(),
            n == tokens.size(),
            es == tokens.entries(),
            forall|q: int| 0 <= q < order.len() ==> #[trigger] order@[q] < n,
            ord == order@.map_values(|k: usize| es[k as int]),
            j <= order.len(),
            substitute_all(content@, ord) == substitute_all(out@, ord.skip(j as int)),
        decreases order.len() - j,
    {
        let k = order[j];
        let pat = chars_of(tokens.key_at(k).as_str());
        let rep = chars_of(tokens.value_at(k).as_str());
        proof {
            assert(ord.skip(j as int).drop_first() =~= ord.skip(j + 1));
            assert(ord.skip(j as int)[0] == es[k as int]);
        }
        out = replace_chars(&out, &pat, &rep);
        j += 1;
    }
    string_of(&out)
}

/// Token substitution on a path; the same substitution as for contents,
/// so directory names such as `replace-me/` are rewritten too.
pub fn apply_tokens_path(path: &str, tokens: &StrMap) -> (r: String)
    requires
        tokens.wf(),
    ensures
        r@ == tokens_applied(path@, *tokens),
{
    apply_tokens(path, tokens)
}

// ---------------------------------------------------------------------
// Laws
// ---------------------------------------------------------------------

/// No entry is followed by one with a longer token.
pub open spec fn longest_first_ordered(s: Seq<(Seq<char>, Seq<char>)>) -> bool {
    forall|i: int, j: int| 0 <= i < j < s.len() ==> byte_len(s[i].0) >= byte_len(s[j].0)
}

proof fn lemma_insert_longest_first(sorted: Seq<(Seq<char>, Seq<char>)>, e: (Seq<char>, Seq<char>))
    requires
        longest_first_ordered(sorted),
    ensures
        longest_first_ordered(insert_longest_first(sorted, e)),
        insert_longest_first(sorted, e).to_multiset() == sorted.to_multiset().insert(e),
    decreases sorted.len(),
{
    broadcast use vstd::seq_lib::group_to_multiset_ensures;

    if sorted.len() == 0 {
        assert(insert_longest_first(sorted, e) =~= sorted.insert(0, e));
    } else if byte_len(sorted[0].0) < byte_len(e.0) {
        assert(insert_longest_first(sorted, e) =~= sorted.insert(0, e));
    } else {
        let rest = sorted.drop_first();
        lemma_insert_longest_first(rest, e);
        let ins = insert_longest_first(rest, e);
        let r = insert_longest_first(sorted, e);
        assert(r == seq![sorted[0]] + ins);
        assert forall|x: (Seq<char>, Seq<char>)| #[trigger] ins.to_multiset().count(x) > 0 implies byte_len(
            sorted[0].0,
        ) >= byte_len(x.0) by {
            assert(ins.contains(x));
            let k = choose|k: int| 0 <= k < ins.len() && ins[k] == x;
            if x != e {
                assert(rest.to_multiset().count(x) > 0);
                assert(rest.contains(x));
                let q = choose|q: int| 0 <= q < rest.len() && rest[q] == x;
                assert(sorted[q + 1] == x);
            }
        }
        assert forall|i: int, j: int| 0 <= i < j < r.len() implies byte_len(r[i].0) >= byte_len(
            r[j].0,
        ) by {
            if i == 0 {
                assert(r[j] == ins[j - 1]);
                assert(ins.to_multiset().count(ins[j - 1]) > 0);
            } else {
                assert(r[i] == ins[i - 1]);
                assert(r[j] == ins[j - 1]);
            }
        }
        assert(r =~= seq![sorted[0]] + ins);
        assert(sorted =~= seq![sorted[0]] + rest);
        vstd::seq_lib::lemma_multiset_commutative(seq![sorted[0]], ins);
        vstd::seq_lib::lemma_multiset_commutative(seq![sorted[0]], rest);
        assert(r.to_multiset() =~= sorted.to_multiset().insert(e));
    }
}

proof fn lemma_longest_first(entries: Seq<(Seq<char>, Seq<char>)>)
    ensures
        longest_first_ordered(longest_first(entries)),
        longest_first(entries).to_multiset() == entries.to_multiset(),
    decreases entries.len(),
{
    broadcast use vstd::seq_lib::group_to_multiset_ensures;

    if entries.len() > 0 {
        lemma_longest_first(entries.drop_last());
        lemma_insert_longest_first(longest_first(entries.drop_last()), entries.last());
        assert(entries =~= entries.drop_last().push(entries.last()));
    } else {
        assert(longest_first(entries).to_multiset() =~= entries.to_multiset());
    }
}

/// Tokens are substituted longest first (by `String::len`), and every
/// token of the map is substituted exactly once.
pub proof fn law_tokens_longest_first(tokens: StrMap)
    requires
        tokens.wf(),
    ensures
        longest_first_ordered(longest_first(tokens.entries())),
        longest_first(tokens.entries()).to_multiset() == tokens.entries().to_multiset(),
{
    lemma_longest_first(tokens.entries());
}

/// Substituting an empty token map leaves the text unchanged.
pub proof fn law_no_tokens_no_change(content: Seq<char>, tokens: StrMap)
    requires
        tokens.wf(),
        tokens.size() == 0,
    ensures
        tokens_applied(content, tokens) == content,
{
    assert(tokens.entries() =~= Seq::<(Seq<char>, Seq<char>)>::empty());
}

/// Text without `{{` renders to itself.
pub proof fn law_plain_text_renders_unchanged(expr: Seq<char>, vars: StrMap)
    requires
        find(expr, open_marker()) is None,
    ensures
        render_spec(expr, vars) == RenderOutcome::Text(expr),
{
}

/// One `/` splits a replacement: a pattern without `/` never matches
/// across it.
proof fn lemma_replace_nonempty_split(a: Seq<char>, b: Seq<char>, k: Seq<char>, v: Seq<char>)
    requires
        k.len() > 0,
        !k.contains('/'),
    ensures
        replace_nonempty(a + seq!['/'] + b, k, v) == replace_nonempty(a, k, v) + seq!['/']
            + replace_nonempty(b, k, v),
    decreases a.len(),
{
    let s = a + seq!['/'] + b;
    let n = k.len();
    if s.len() < n {
    } else if s.take(n as int) == k {
        if n > a.len() {
            assert(s[a.len() as int] == '/');
            assert(k[a.len() as int] == s.take(n as int)[a.len() as int]);
            assert(k[a.len() as int] == '/');
            assert(false);
        }
        assert(a.take(n as int) =~= s.take(n as int));
        assert(s.skip(n as int) =~= a.skip(n as int) + seq!['/'] + b);
        lemma_replace_nonempty_split(a.skip(n as int), b, k, v);
        assert(replace_nonempty(s, k, v) =~= replace_nonempty(a, k, v) + seq!['/'] + replace_nonempty(
            b,
            k,
            v,
        ));
    } else if a.len() == 0 {
        assert(s.drop_first() =~= b);
        assert(s[0] == '/');
        assert(replace_nonempty(a, k, v) == a);
        assert(replace_nonempty(s, k, v) =~= replace_nonempty(a, k, v) + seq!['/'] + replace_nonempty(
            b,
            k,
            v,
        ));
    } else {
        let a1 = a.drop_first();
        assert(s.drop_first() =~= a1 + seq!['/'] + b);
        assert(s[0] == a[0]);
        lemma_replace_nonempty_split(a1, b, k, v);
        if a.len() < n {
            assert(replace_nonempty(a1, k, v) == a1);
            assert(seq![a[0]] + a1 =~= a);
        } else {
            assert(a.take(n as int) =~= s.take(n as int));
        }
        assert(replace_nonempty(s, k, v) =~= replace_nonempty(a, k, v) + seq!['/'] + replace_nonempty(
            b,
            k,
            v,
        ));
    }
}

proof fn lemma_replace_empty_split(a: Seq<char>, b: Seq<char>, v: Seq<char>)
    ensures
        replace_empty(a + seq!['/'] + b, v) == replace_empty(a, v) + seq!['/'] + replace_empty(b, v),
    decreases a.len(),
{
    let s = a + seq!['/'] + b;
    if a.len() == 0 {
        assert(s.drop_first() =~= b);
        assert(s[0] == '/');
        assert(replace_empty(s, v) =~= replace_empty(a, v) + seq!['/'] + replace_empty(b, v));
    } else {
        let a1 = a.drop_first();
        assert(s.drop_first() =~= a1 + seq!['/'] + b);
        assert(s[0] == a[0]);
        lemma_replace_empty_split(a1, b, v);
        assert(replace_empty(s, v) =~= replace_empty(a, v) + seq!['/'] + replace_empty(b, v));
    }
}

/// Replacing a pattern without `/` in a `/`-joined text replaces it in
/// each piece.
proof fn lemma_replace_join(parts: Seq<Seq<char>>, k: Seq<char>, v: Seq<char>)
    requires
        parts.len() > 0,
        !k.contains('/'),
    ensures
        replace(join_with(parts, seq!['/']), k, v) == join_with(
            parts.map_values(|c: Seq<char>| replace(c, k, v)),
            seq!['/'],
        ),
    decreases parts.len(),
{
    let m = parts.map_values(|c: Seq<char>| replace(c, k, v));
    if parts.len() == 1 {
        assert(m[0] == replace(parts[0], k, v));
    } else {
        let d = parts.drop_last();
        lemma_replace_join(d, k, v);
        if k.len() == 0 {
            lemma_replace_empty_split(join_with(d, seq!['/']), parts.last(), v);
        } else {
            lemma_replace_nonempty_split(join_with(d, seq!['/']), parts.last(), k, v);
        }
        assert(m.drop_last() =~= d.map_values(|c: Seq<char>| replace(c, k, v)));
        assert(m.last() == replace(parts.last(), k, v));
    }
}

proof fn lemma_substitute_all_join(parts: Seq<Seq<char>>, order: Seq<(Seq<char>, Seq<char>)>)
    requires
        parts.len() > 0,
        forall|j: int| 0 <= j < order.len() ==> !(#[trigger] order[j]).0.contains('/'),
    ensures
        substitute_all(join_with(parts, seq!['/']), order) == join_with(
            parts.map_values(|c: Seq<char>| substitute_all(c, order)),
            seq!['/'],
        ),
    decreases order.len(),
{
    if order.len() == 0 {
        assert(parts.map_values(|c: Seq<char>| substitute_all(c, order)) =~= parts);
    } else {
        let k = order[0].0;
        let v = order[0].1;
        let rest = order.drop_first();
        assert(!order[0].0.contains('/'));
        lemma_replace_join(parts, k, v);
        let p1 = parts.map_values(|c: Seq<char>| replace(c, k, v));
        assert forall|j: int| 0 <= j < rest.len() implies !(#[trigger] rest[j]).0.contains('/') by {
            assert(rest[j] == order[j + 1]);
        }
        lemma_substitute_all_join(p1, rest);
        assert(p1.map_values(|c: Seq<char>| substitute_all(c, rest)) =~= parts.map_values(
            |c: Seq<char>| substitute_all(c, order),
        ));
    }
}

/// When no token holds `/`, substituting tokens into a path is the same as
/// substituting them into each of its `/`-separated components (a path
/// splits into at least one component).
pub proof fn law_tokens_per_path_component(parts: Seq<Seq<char>>, tokens: StrMap)
    requires
        tokens.wf(),
        parts.len() > 0,
        forall|i: int| 0 <= i < tokens.size() ==> !(#[trigger] tokens.keys()[i]).contains('/'),
    ensures
        tokens_applied(join_with(parts, seq!['/']), tokens) == join_with(
            parts.map_values(|c: Seq<char>| tokens_applied(c, tokens)),
            seq!['/'],
        ),
{
    broadcast use vstd::seq_lib::group_to_multiset_ensures;

    let e = tokens.entries();
    let order = longest_first(e);
    lemma_longest_first(e);
    assert forall|j: int| 0 <= j < order.len() implies !(#[trigger] order[j]).0.contains('/') by {
        assert(order.contains(order[j]));
        assert(order.to_multiset().count(order[j]) > 0);
        assert(e.contains(order[j]));
        let i = choose|i: int| 0 <= i < e.len() && e[i] == order[j];
        assert(e[i].0 == tokens.keys()[i]);
    }
    lemma_substitute_all_join(parts, order);
    assert(parts.map_values(|c: Seq<char>| tokens_applied(c, tokens)) =~= parts.map_values(
        |c: Seq<char>| substitute_all(c, order),
    ));
}

} // verus!

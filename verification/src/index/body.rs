//! What a function body does: the calls it makes, the matches it branches
//! on and the errors it returns, and how that is summarised in a skeleton.
use vstd::prelude::*;

use crate::index::syntax::{
    child_by_field, collect_visit, derefs, deref_opt, field_child, first_child, first_named_child,
    find_child, kind_child, kind_is, named_child, node_text, text_of, visit, SyntaxNode,
};
use crate::index::{truncate, truncated, Language};
use crate::deps::sorted::{cviews, insert_sorted, lemma_is_sorted_set, sorted_set, strictly_sorted};
use crate::text::{chars_eq, contains, copy_range, ends_with, has_prefix, has_substring, starts_with, trim, trimmed, str_is, rfind, find_at, occurs_at, strip_prefix, strip_suffix, chars_of, decimal, decimal_of, join, join_exec, push_all, push_str, string_of, texts_of, views};

verus! {

/// How many characters of a callee name are kept.
pub const INSIGHT_CALL_TRUNCATE: usize = 40;

/// How many characters of a match target are kept.
pub const INSIGHT_MATCH_TARGET_TRUNCATE: usize = 30;

/// How many characters of a match arm are kept.
pub const INSIGHT_ARM_TRUNCATE: usize = 30;

/// How many characters of an error expression are kept.
pub const INSIGHT_ERROR_TRUNCATE: usize = 40;

/// How many free calls a summary lists.
pub const MAX_CALLS: usize = 12;

/// How many method calls a summary lists.
pub const MAX_METHODS: usize = 8;

/// How many arms of one match a summary lists.
pub const MAX_MATCH_ARMS: usize = 10;

/// How many error returns a summary lists.
pub const MAX_ERRORS: usize = 8;

/// One match (or switch) of a body: what it branches on and its arms.
#[derive(Debug, Clone)]
pub struct MatchInsight {
    pub target: String,
    pub arms: Vec<String>,
}

/// What a function body does, in source order: free and scoped calls,
/// method calls, matches, named error returns and the number of `?`.
#[derive(Debug, Clone)]
pub struct BodyInsights {
    pub calls: Vec<String>,
    pub method_calls: Vec<String>,
    pub match_arms: Vec<MatchInsight>,
    pub error_returns: Vec<String>,
    pub try_count: usize,
}

impl Default for BodyInsights {
    /// No calls, matches or errors.
    fn default() -> (r: BodyInsights)
        ensures
            r.calls@.len() == 0,
            r.method_calls@.len() == 0,
            r.match_arms@.len() == 0,
            r.error_returns@.len() == 0,
            r.try_count == 0,
    {
        BodyInsights {
            calls: Vec::new(),
            method_calls: Vec::new(),
            match_arms: Vec::new(),
            error_returns: Vec::new(),
            try_count: 0,
        }
    }
}

/// The first `max` items joined with ", ", and ", ..." when there are more.
pub open spec fn capped(items: Seq<Seq<char>>, max: nat) -> Seq<char> {
    if items.len() > max {
        join(items.take(max as int), ", "@) + ", ..."@
    } else {
        join(items, ", "@)
    }
}

/// The summary line of one match.
pub open spec fn match_line(m: MatchInsight) -> Seq<char> {
    "\u{2192} match: "@ + m.target@ + " \u{2192} "@ + capped(views(m.arms@), MAX_MATCH_ARMS as nat)
}

/// The summary lines of the matches `ms`.
pub open spec fn match_lines(ms: Seq<MatchInsight>) -> Seq<Seq<char>>
    decreases ms.len(),
{
    if ms.len() == 0 {
        Seq::empty()
    } else {
        match_lines(ms.drop_last()).push(match_line(ms.last()))
    }
}

/// The parts of the errors line: the first error returns, "..." when there
/// are more, and the number of `?` when there is any.
pub open spec fn error_parts(errors: Seq<Seq<char>>, tries: nat) -> Seq<Seq<char>> {
    let shown = if errors.len() > MAX_ERRORS {
        errors.take(MAX_ERRORS as int).push("..."@)
    } else {
        errors
    };
    if tries > 0 {
        shown.push(decimal(tries) + "\u{d7} ?"@)
    } else {
        shown
    }
}

/// The summary lines of `b`: calls, methods, one line per match, errors;
/// a line only where there is something to list.
pub open spec fn insight_lines(b: BodyInsights) -> Seq<Seq<char>> {
    let calls = if b.calls@.len() > 0 {
        seq!["\u{2192} calls: "@ + capped(views(b.calls@), MAX_CALLS as nat)]
    } else {
        Seq::empty()
    };
    let methods = if b.method_calls@.len() > 0 {
        seq!["\u{2192} methods: "@ + capped(views(b.method_calls@), MAX_METHODS as nat)]
    } else {
        Seq::empty()
    };
    let errors = if b.error_returns@.len() > 0 || b.try_count > 0 {
        seq![
            "\u{2192} errors: "@ + join(
                error_parts(views(b.error_returns@), b.try_count as nat),
                ", "@,
            ),
        ]
    } else {
        Seq::empty()
    };
    calls + methods + match_lines(b.match_arms@) + errors
}

/// The summary line of one match given as target and arms.
pub open spec fn match_line_of(m: (Seq<char>, Seq<Seq<char>>)) -> Seq<char> {
    "\u{2192} match: "@ + m.0 + " \u{2192} "@ + capped(m.1, MAX_MATCH_ARMS as nat)
}

/// The summary lines of matches given as targets and arms.
pub open spec fn match_lines_of(ms: Seq<(Seq<char>, Seq<Seq<char>>)>) -> Seq<Seq<char>>
    decreases ms.len(),
{
    if ms.len() == 0 {
        Seq::empty()
    } else {
        match_lines_of(ms.drop_last()).push(match_line_of(ms.last()))
    }
}

/// The summary lines of a body given as texts: calls, methods, one line per
/// match, errors; a line only where there is something to list.
pub open spec fn summary_lines(
    calls: Seq<Seq<char>>,
    methods: Seq<Seq<char>>,
    ms: Seq<(Seq<char>, Seq<Seq<char>>)>,
    errors: Seq<Seq<char>>,
    tries: nat,
) -> Seq<Seq<char>> {
    let c = if calls.len() > 0 {
        seq!["\u{2192} calls: "@ + capped(calls, MAX_CALLS as nat)]
    } else {
        Seq::empty()
    };
    let m = if methods.len() > 0 {
        seq!["\u{2192} methods: "@ + capped(methods, MAX_METHODS as nat)]
    } else {
        Seq::empty()
    };
    let e = if errors.len() > 0 || tries > 0 {
        seq!["\u{2192} errors: "@ + join(error_parts(errors, tries), ", "@)]
    } else {
        Seq::empty()
    };
    c + m + match_lines_of(ms) + e
}

/// The summary lines of the body of node `n` (see `body_insights_of`).
pub open spec fn body_lines(n: SyntaxNode, src: Seq<u8>, lang: Language) -> Seq<Seq<char>> {
    let (free, meth, ms, errs, tries) = body_insights_of(n, src, lang);
    summary_lines(sorted_set(free), sorted_set(meth), ms, errs, tries)
}

/// The summary lines of matches depend on their targets and arms alone.
pub proof fn lemma_match_lines(ms: Seq<MatchInsight>)
    ensures
        match_lines(ms) == match_lines_of(ms.map_values(|m: MatchInsight| insight_view(m))),
    decreases ms.len(),
{
    if ms.len() > 0 {
        lemma_match_lines(ms.drop_last());
        assert(ms.drop_last().map_values(|m: MatchInsight| insight_view(m)) =~= ms.map_values(
            |m: MatchInsight| insight_view(m),
        ).drop_last());
    }
}

/// The summary lines of the insights `analyze_body` gives for a node are
/// those of its body.
pub proof fn lemma_body_lines(b: BodyInsights, n: SyntaxNode, src: Seq<u8>, lang: Language)
    requires
        ({
            let (free, meth, ms, errs, tries) = body_insights_of(n, src, lang);
            &&& views(b.calls@) == sorted_set(free)
            &&& views(b.method_calls@) == sorted_set(meth)
            &&& b.match_arms@.map_values(|m: MatchInsight| insight_view(m)) == ms
            &&& views(b.error_returns@) == errs
            &&& b.try_count == tries
        }),
    ensures
        insight_lines(b) == body_lines(n, src, lang),
{
    lemma_match_lines(b.match_arms@);
}

/// `capped` on texts.
fn capped_exec(items: &Vec<String>, max: usize) -> (r: Vec<char>)
    ensures
        r@ == capped(views(items@), max as nat),
{
    let parts = texts_of(items.as_slice());
    let sep = chars_of(", ");
    if items.len() > max {
        let mut r = join_exec(parts.as_slice(), max, sep.as_slice());
        assert(parts@.take(max as int).map_values(|v: Vec<char>| v@) =~= views(items@).take(
            max as int,
        ));
        push_str(&mut r, ", ...");
        r
    } else {
        let r = join_exec(parts.as_slice(), parts.len(), sep.as_slice());
        assert(parts@.take(parts@.len() as int).map_values(|v: Vec<char>| v@) =~= views(items@));
        r
    }
}

impl BodyInsights {
    /// The summary lines of the body: "→ calls: ", "→ methods: ", one
    /// "→ match: target → arms" per match, and "→ errors: "; long lists are
    /// cut and end in "...".
    pub fn format_lines(&self) -> (r: Vec<String>)
        ensures
            views(r@) == insight_lines(*self),
    {
        let mut lines: Vec<String> = Vec::new();
        if self.calls.len() > 0 {
            let mut l = chars_of("\u{2192} calls: ");
            let c = capped_exec(&self.calls, MAX_CALLS);
            push_all(&mut l, c.as_slice());
            lines.push(string_of(l.as_slice()));
        }
        assert(views(lines@) =~= (if self.calls@.len() > 0 {
            seq!["\u{2192} calls: "@ + capped(views(self.calls@), MAX_CALLS as nat)]
        } else {
            Seq::empty()
        }));
        let ghost l1 = views(lines@);
        if self.method_calls.len() > 0 {
            let mut l = chars_of("\u{2192} methods: ");
            let c = capped_exec(&self.method_calls, MAX_METHODS);
            push_all(&mut l, c.as_slice());
            lines.push(string_of(l.as_slice()));
        }
        assert(views(lines@) =~= l1 + (if self.method_calls@.len() > 0 {
            seq!["\u{2192} methods: "@ + capped(views(self.method_calls@), MAX_METHODS as nat)]
        } else {
            Seq::empty()
        }));
        let ghost l2 = views(lines@);
        let mut i: usize = 0;
        while i < self.match_arms.len()
            invariant
                i <= self.match_arms@.len(),
                views(lines@) == l2 + match_lines(self.match_arms@.take(i as int)),
            decreases self.match_arms@.len() - i,
        {
            let m = &self.match_arms[i];
            let mut l = chars_of("\u{2192} match: ");
            let t = chars_of(m.target.as_str());
            push_all(&mut l, t.as_slice());
            push_str(&mut l, " \u{2192} ");
            let c = capped_exec(&m.arms, MAX_MATCH_ARMS);
            push_all(&mut l, c.as_slice());
            let ghost before = views(lines@);
            lines.push(string_of(l.as_slice()));
            assert(self.match_arms@.take(i + 1).drop_last() =~= self.match_arms@.take(i as int));
            assert(views(lines@) =~= before.push(match_line(*m)));
            i += 1;
        }
        assert(self.match_arms@.take(i as int) =~= self.match_arms@);
        let ghost l3 = views(lines@);
        if self.error_returns.len() > 0 || self.try_count > 0 {
            let mut parts = texts_of(self.error_returns.as_slice());
            let ghost ev = views(self.error_returns@);
            if self.error_returns.len() > MAX_ERRORS {
                parts.truncate(MAX_ERRORS);
                parts.push(chars_of("..."));
            }
            assert(parts@.map_values(|v: Vec<char>| v@) =~= (if ev.len() > MAX_ERRORS {
                ev.take(MAX_ERRORS as int).push("..."@)
            } else {
                ev
            }));
            if self.try_count > 0 {
                let mut t = decimal_of(self.try_count);
                push_str(&mut t, "\u{d7} ?");
                parts.push(t);
            }
            assert(parts@.map_values(|v: Vec<char>| v@) =~= error_parts(ev, self.try_count as nat));
            let mut l = chars_of("\u{2192} errors: ");
            let sep = chars_of(", ");
            let j = join_exec(parts.as_slice(), parts.len(), sep.as_slice());
            assert(parts@.take(parts@.len() as int) =~= parts@);
            push_all(&mut l, j.as_slice());
            lines.push(string_of(l.as_slice()));
        }
        assert(views(lines@) =~= insight_lines(*self));
        lines
    }
}

/// A call reached through a member: the member named by `leaf` of the
/// callee, prefixed with the member of the receiver when the receiver is
/// itself a member access of kind `obj_kind`; a method call.
pub open spec fn member_call(
    func: SyntaxNode,
    src: Seq<u8>,
    leaf: Seq<char>,
    obj: Seq<char>,
    obj_kind: Seq<char>,
) -> Option<(Seq<char>, bool)> {
    match field_child(func, leaf) {
        None => None,
        Some(l) => match field_child(func, obj) {
            None => None,
            Some(o) => {
                let name = if o.kind@ == obj_kind {
                    match field_child(o, leaf) {
                        Some(p) => text_of(p, src) + "."@ + text_of(l, src),
                        None => text_of(l, src),
                    }
                } else {
                    text_of(l, src)
                };
                Some((name, true))
            },
        },
    }
}

/// The name a call node calls and whether it is a method call, per
/// language; one level of receiver is kept for calls on a member access.
pub open spec fn callee(n: SyntaxNode, src: Seq<u8>, lang: Language) -> Option<(Seq<char>, bool)> {
    match lang {
        Language::Java => match field_child(n, "name"@) {
            None => None,
            Some(c) => match field_child(n, "object"@) {
                None => Some((text_of(c, src), false)),
                Some(o) => {
                    let name = if o.kind@ == "field_access"@ {
                        match field_child(o, "field"@) {
                            Some(p) => text_of(p, src) + "."@ + text_of(c, src),
                            None => text_of(c, src),
                        }
                    } else {
                        text_of(c, src)
                    };
                    Some((name, true))
                },
            },
        },
        _ => match field_child(n, "function"@) {
            None => None,
            Some(f) => {
                if f.kind@ == "identifier"@ {
                    Some((text_of(f, src), false))
                } else {
                    match lang {
                        Language::Rust => if f.kind@ == "scoped_identifier"@ {
                            Some((text_of(f, src), false))
                        } else if f.kind@ == "field_expression"@ {
                            member_call(f, src, "field"@, "value"@, "field_expression"@)
                        } else {
                            Some((text_of(f, src), false))
                        },
                        Language::Python => if f.kind@ == "attribute"@ {
                            member_call(f, src, "attribute"@, "object"@, "attribute"@)
                        } else {
                            None
                        },
                        Language::Go => if f.kind@ == "selector_expression"@ {
                            member_call(f, src, "field"@, "operand"@, "selector_expression"@)
                        } else {
                            None
                        },
                        _ => if f.kind@ == "member_expression"@ {
                            member_call(f, src, "property"@, "object"@, "member_expression"@)
                        } else {
                            None
                        },
                    }
                }
            },
        },
    }
}

/// The node is a call in `lang`.
pub open spec fn call_node(n: SyntaxNode, lang: Language) -> bool {
    match lang {
        Language::Java => n.kind@ == "method_invocation"@,
        Language::Python => n.kind@ == "call"@,
        _ => n.kind@ == "call_expression"@,
    }
}

/// The (cut) names of the calls among `ns`, method calls (`method`) or
/// free ones.
pub open spec fn call_names(ns: Seq<SyntaxNode>, src: Seq<u8>, lang: Language, method: bool) -> Set<
    Seq<char>,
> {
    Set::new(
        |t: Seq<char>|
            exists|i: int|
                0 <= i < ns.len() && call_node(#[trigger] ns[i], lang) && (callee(ns[i], src, lang) matches Some(
                    (name, m),
                ) && m == method && t == truncated(name, INSIGHT_CALL_TRUNCATE as nat)),
    )
}

/// A call reached through a member (see `member_call`).
fn member_call_exec(
    func: &SyntaxNode,
    source: &[u8],
    leaf: &str,
    obj: &str,
    obj_kind: &str,
) -> (r: Option<(Vec<char>, bool)>)
    ensures
        match r {
            Some((t, m)) => member_call(*func, source@, leaf@, obj@, obj_kind@) == Some((t@, m)),
            None => member_call(*func, source@, leaf@, obj@, obj_kind@) is None,
        },
{
    let l = match child_by_field(func, leaf) {
        Some(l) => l,
        None => return None,
    };
    let o = match child_by_field(func, obj) {
        Some(o) => o,
        None => return None,
    };
    let lt = node_text(l, source);
    if kind_is(o, obj_kind) {
        match child_by_field(o, leaf) {
            Some(p) => {
                let mut name = node_text(p, source);
                push_str(&mut name, ".");
                push_all(&mut name, lt.as_slice());
                return Some((name, true));
            },
            None => {},
        }
    }
    Some((lt, true))
}

/// The name a call node calls and whether it is a method call (see
/// `callee`).
pub fn extract_callee_name(node: &SyntaxNode, source: &[u8], lang: Language) -> (r: Option<(String, bool)>)
    ensures
        match r {
            Some((t, m)) => callee(*node, source@, lang) == Some((t@, m)),
            None => callee(*node, source@, lang) is None,
        },
{
    let r = callee_chars(node, source, lang);
    match r {
        Some((t, m)) => Some((string_of(t.as_slice()), m)),
        None => None,
    }
}

fn callee_chars(node: &SyntaxNode, source: &[u8], lang: Language) -> (r: Option<(Vec<char>, bool)>)
    ensures
        match r {
            Some((t, m)) => callee(*node, source@, lang) == Some((t@, m)),
            None => callee(*node, source@, lang) is None,
        },
{
    match lang {
        Language::Java => {
            let c = match child_by_field(node, "name") {
                Some(c) => c,
                None => return None,
            };
            let ct = node_text(c, source);
            match child_by_field(node, "object") {
                None => Some((ct, false)),
                Some(o) => {
                    if kind_is(o, "field_access") {
                        match child_by_field(o, "field") {
                            Some(p) => {
                                let mut name = node_text(p, source);
                                push_str(&mut name, ".");
                                push_all(&mut name, ct.as_slice());
                                return Some((name, true));
                            },
                            None => {},
                        }
                    }
                    Some((ct, true))
                },
            }
        },
        _ => {
            let f = match child_by_field(node, "function") {
                Some(f) => f,
                None => return None,
            };
            if kind_is(f, "identifier") {
                return Some((node_text(f, source), false));
            }
            match lang {
                Language::Rust => {
                    if kind_is(f, "scoped_identifier") {
                        Some((node_text(f, source), false))
                    } else if kind_is(f, "field_expression") {
                        member_call_exec(f, source, "field", "value", "field_expression")
                    } else {
                        Some((node_text(f, source), false))
                    }
                },
                Language::Python => {
                    if kind_is(f, "attribute") {
                        member_call_exec(f, source, "attribute", "object", "attribute")
                    } else {
                        None
                    }
                },
                Language::Go => {
                    if kind_is(f, "selector_expression") {
                        member_call_exec(f, source, "field", "operand", "selector_expression")
                    } else {
                        None
                    }
                },
                _ => {
                    if kind_is(f, "member_expression") {
                        member_call_exec(f, source, "property", "object", "member_expression")
                    } else {
                        None
                    }
                },
            }
        },
    }
}

/// Whether a node is a call in `lang`.
pub fn is_call_node(n: &SyntaxNode, lang: Language) -> (b: bool)
    ensures
        b == call_node(*n, lang),
{
    match lang {
        Language::Java => kind_is(n, "method_invocation"),
        Language::Python => kind_is(n, "call"),
        _ => kind_is(n, "call_expression"),
    }
}

/// Calls are ranked by the kind of their call site alone, never by name:
/// no call is noise.
pub fn is_noise_call(name: &str, lang: Language) -> (b: bool)
    ensures
        !b,
{
    false
}

/// The free and the method calls among the visited nodes `ns`, each cut
/// to 40 characters, sorted and without repeats.
pub fn extract_calls(ns: &Vec<&SyntaxNode>, source: &[u8], lang: Language) -> (r: (Vec<String>, Vec<String>))
    ensures
        views(r.0@) == sorted_set(call_names(derefs(ns@), source@, lang, false)),
        views(r.1@) == sorted_set(call_names(derefs(ns@), source@, lang, true)),
{
    let ghost d = derefs(ns@);
    let mut primary: Vec<Vec<char>> = Vec::new();
    let mut methods: Vec<Vec<char>> = Vec::new();
    let mut i: usize = 0;
    assert(cviews(primary@).to_set() =~= call_names(d.take(0), source@, lang, false));
    assert(cviews(methods@).to_set() =~= call_names(d.take(0), source@, lang, true));
    while i < ns.len()
        invariant
            d == derefs(ns@),
            i <= ns@.len(),
            strictly_sorted(cviews(primary@)),
            strictly_sorted(cviews(methods@)),
            cviews(primary@).to_set() == call_names(d.take(i as int), source@, lang, false),
            cviews(methods@).to_set() == call_names(d.take(i as int), source@, lang, true),
        decreases ns@.len() - i,
    {
        let n = ns[i];
        assert(*n == d[i as int]);
        let ghost p0 = cviews(primary@).to_set();
        let ghost m0 = cviews(methods@).to_set();
        let ghost hit: Option<(Seq<char>, bool)> = if call_node(*n, lang) {
            callee(*n, source@, lang)
        } else {
            None
        };
        if is_call_node(n, lang) {
            match callee_chars(n, source, lang) {
                Some((name, is_method)) => {
                    let ns_ = string_of(name.as_slice());
                    if !is_noise_call(ns_.as_str(), lang) {
                        let t = truncate(ns_.as_str(), INSIGHT_CALL_TRUNCATE);
                        let tc = chars_of(t.as_str());
                        if is_method {
                            insert_sorted(&mut methods, tc.as_slice());
                        } else {
                            insert_sorted(&mut primary, tc.as_slice());
                        }
                    }
                },
                None => {},
            }
        }
        proof {
            let dn = d.take(i + 1);
            assert(dn =~= d.take(i as int).push(d[i as int]));
            assert forall|mm: bool| #![auto]
                call_names(dn, source@, lang, mm) =~= call_names(d.take(i as int), source@, lang, mm).union(
                    match hit {
                        Some((name, m)) => if m == mm {
                            set![truncated(name, INSIGHT_CALL_TRUNCATE as nat)]
                        } else {
                            Set::empty()
                        },
                        None => Set::empty(),
                    },
                ) by {
                assert forall|t: Seq<char>| #[trigger] call_names(dn, source@, lang, mm).contains(t)
                    implies call_names(d.take(i as int), source@, lang, mm).union(
                    match hit {
                        Some((name, m)) => if m == mm {
                            set![truncated(name, INSIGHT_CALL_TRUNCATE as nat)]
                        } else {
                            Set::empty()
                        },
                        None => Set::empty(),
                    },
                ).contains(t) by {
                    let k = choose|k: int|
                        0 <= k < dn.len() && call_node(#[trigger] dn[k], lang) && (callee(dn[k], source@, lang) matches Some(
                            (name, m),
                        ) && m == mm && t == truncated(name, INSIGHT_CALL_TRUNCATE as nat));
                    if k < i {
                        assert(d.take(i as int)[k] == dn[k]);
                    }
                }
                assert forall|t: Seq<char>|
                    call_names(d.take(i as int), source@, lang, mm).union(
                    match hit {
                        Some((name, m)) => if m == mm {
                            set![truncated(name, INSIGHT_CALL_TRUNCATE as nat)]
                        } else {
                            Set::empty()
                        },
                        None => Set::empty(),
                    },
                ).contains(t) implies #[trigger] call_names(dn, source@, lang, mm).contains(t) by {
                    if call_names(d.take(i as int), source@, lang, mm).contains(t) {
                        let k = choose|k: int|
                            0 <= k < i && call_node(#[trigger] d.take(i as int)[k], lang) && (callee(d.take(i as int)[k], source@, lang) matches Some(
                                (name, m),
                            ) && m == mm && t == truncated(name, INSIGHT_CALL_TRUNCATE as nat));
                        assert(dn[k] == d.take(i as int)[k]);
                    } else {
                        assert(dn[i as int] == d[i as int]);
                    }
                }
            }
            assert(cviews(primary@).to_set() =~= call_names(dn, source@, lang, false));
            assert(cviews(methods@).to_set() =~= call_names(dn, source@, lang, true));
        }
        i += 1;
    }
    assert(d.take(i as int) =~= d);
    proof {
        lemma_is_sorted_set(cviews(primary@));
        lemma_is_sorted_set(cviews(methods@));
    }
    let mut calls: Vec<String> = Vec::new();
    let mut k: usize = 0;
    while k < primary.len()
        invariant
            k <= primary@.len(),
            views(calls@) == cviews(primary@).take(k as int),
        decreases primary@.len() - k,
    {
        let ghost c0 = views(calls@);
        calls.push(string_of(primary[k].as_slice()));
        assert(views(calls@) =~= c0.push(primary@[k as int]@));
        assert(cviews(primary@).take(k + 1) =~= cviews(primary@).take(k as int).push(primary@[k as int]@));
        k += 1;
    }
    assert(cviews(primary@).take(k as int) =~= cviews(primary@));
    let mut mcalls: Vec<String> = Vec::new();
    let mut k: usize = 0;
    while k < methods.len()
        invariant
            k <= methods@.len(),
            views(mcalls@) == cviews(methods@).take(k as int),
        decreases methods@.len() - k,
    {
        let ghost c0 = views(mcalls@);
        mcalls.push(string_of(methods[k].as_slice()));
        assert(views(mcalls@) =~= c0.push(methods@[k as int]@));
        assert(cviews(methods@).take(k + 1) =~= cviews(methods@).take(k as int).push(methods@[k as int]@));
        k += 1;
    }
    assert(cviews(methods@).take(k as int) =~= cviews(methods@));
    (calls, mcalls)
}

/// The macros of std that end a function with an error.
pub open spec fn failing_macro(t: Seq<char>) -> bool {
    t == "panic"@ || t == "todo"@ || t == "unimplemented"@
}

/// The last position where `::` occurs in `t`.
pub open spec fn last_sep(t: Seq<char>) -> int {
    choose|k: int| occurs_at(t, "::"@, k) && forall|j: int| k < j ==> !occurs_at(t, "::"@, j)
}

/// A macro name is one of std's failing macros, unqualified or under
/// `std::` or `core::`.
pub open spec fn stdlib_macro(full: Seq<char>) -> bool {
    if contains(full, "::"@) {
        (starts_with(full, "std::"@) || starts_with(full, "core::"@)) && failing_macro(
            full.skip(last_sep(full) + 2),
        )
    } else {
        failing_macro(full)
    }
}

/// The name of what a `raise`/`throw` raises: the callee or constructor
/// (field `field` of an expression of kind `k`), else the expression.
pub open spec fn raised_name(expr: SyntaxNode, src: Seq<u8>, k: Seq<char>, field: Seq<char>) -> Seq<
    char,
> {
    if expr.kind@ == k {
        match field_child(expr, field) {
            Some(f) => text_of(f, src),
            None => text_of(expr, src),
        }
    } else {
        text_of(expr, src)
    }
}

/// The error a `raise`/`throw` statement names.
pub open spec fn raised(n: SyntaxNode, src: Seq<u8>, k: Seq<char>, field: Seq<char>) -> Option<
    Seq<char>,
> {
    match named_child(n) {
        Some(expr) => Some(
            truncated(trim(raised_name(expr, src, k, field)), INSIGHT_ERROR_TRUNCATE as nat),
        ),
        None => None,
    }
}

/// The error a node returns or raises, per language: `Err(..)` calls and
/// std's failing macros in Rust, `raise` in Python, `throw` in TypeScript,
/// JavaScript and Java, `errors.New` and `fmt.Errorf` in Go.
pub open spec fn error_of(n: SyntaxNode, src: Seq<u8>, lang: Language) -> Option<Seq<char>> {
    match lang {
        Language::Rust => if n.kind@ == "call_expression"@ {
            match field_child(n, "function"@) {
                Some(f) => if text_of(f, src) == "Err"@ {
                    match field_child(n, "arguments"@) {
                        Some(a) => match named_child(a) {
                            Some(inner) => Some(
                                truncated(trim(text_of(inner, src)), INSIGHT_ERROR_TRUNCATE as nat),
                            ),
                            None => None,
                        },
                        None => None,
                    }
                } else {
                    None
                },
                None => None,
            }
        } else if n.kind@ == "macro_invocation"@ {
            match first_child(n) {
                Some(m) => if stdlib_macro(text_of(m, src)) {
                    Some(text_of(m, src) + "!"@)
                } else {
                    None
                },
                None => None,
            }
        } else {
            None
        },
        Language::Python => if n.kind@ == "raise_statement"@ {
            raised(n, src, "call"@, "function"@)
        } else {
            None
        },
        Language::TypeScript | Language::JavaScript => if n.kind@ == "throw_statement"@ {
            raised(n, src, "new_expression"@, "constructor"@)
        } else {
            None
        },
        Language::Go => if n.kind@ == "call_expression"@ {
            match field_child(n, "function"@) {
                Some(f) => if text_of(f, src) == "errors.New"@ || text_of(f, src) == "fmt.Errorf"@ {
                    Some(truncated(text_of(f, src), INSIGHT_ERROR_TRUNCATE as nat))
                } else {
                    None
                },
                None => None,
            }
        } else {
            None
        },
        Language::Java => if n.kind@ == "throw_statement"@ {
            raised(n, src, "object_creation_expression"@, "type"@)
        } else {
            None
        },
    }
}

/// The errors of the nodes `ns`, each once, in the order first named.
pub open spec fn errors_of(ns: Seq<SyntaxNode>, src: Seq<u8>, lang: Language) -> Seq<Seq<char>>
    decreases ns.len(),
{
    if ns.len() == 0 {
        Seq::empty()
    } else {
        let e = errors_of(ns.drop_last(), src, lang);
        match error_of(ns.last(), src, lang) {
            Some(t) => if e.contains(t) {
                e
            } else {
                e.push(t)
            },
            None => e,
        }
    }
}

/// An error that one of the nodes `ns` names is among the errors of `ns`.
pub proof fn lemma_errors_of_has(ns: Seq<SyntaxNode>, src: Seq<u8>, lang: Language, k: int)
    requires
        0 <= k < ns.len(),
        error_of(ns[k], src, lang) is Some,
    ensures
        errors_of(ns, src, lang).contains(error_of(ns[k], src, lang)->0),
    decreases ns.len(),
{
    let t = error_of(ns[k], src, lang)->0;
    let e = errors_of(ns.drop_last(), src, lang);
    if k == ns.len() - 1 {
        if !e.contains(t) {
            assert(e.push(t)[e.len() as int] == t);
        }
    } else {
        assert(ns.drop_last()[k] == ns[k]);
        lemma_errors_of_has(ns.drop_last(), src, lang, k);
        let j = choose|j: int| 0 <= j < e.len() && e[j] == t;
        match error_of(ns.last(), src, lang) {
            Some(u) => if !e.contains(u) {
                assert(e.push(u)[j] == t);
            },
            None => {},
        }
    }
}

/// The macro name `path` + `name` is one of std's failing macros when
/// `name` is and `path` is empty, `std::` or `core::`.
proof fn lemma_std_failing(path: Seq<char>, name: Seq<char>)
    requires
        name == "panic"@ || name == "todo"@ || name == "unimplemented"@,
        path == ""@ || path == "std::"@ || path == "core::"@,
    ensures
        stdlib_macro(path + name),
{
    reveal_strlit("panic");
    reveal_strlit("todo");
    reveal_strlit("unimplemented");
    reveal_strlit("");
    reveal_strlit("std::");
    reveal_strlit("core::");
    reveal_strlit("::");
    let full = path + name;
    assert(forall|i: int| 0 <= i < name.len() ==> name[i] != ':');
    if path.len() == 0 {
        assert(full =~= name);
        if contains(full, "::"@) {
            let i = choose|i: int| occurs_at(full, "::"@, i);
            assert(full.subrange(i, i + 2)[0] == ':');
            assert(full[i] == ':');
        }
    } else {
        let p = path.len() - 2;
        assert(full.subrange(p, p + 2) =~= "::"@);
        assert(occurs_at(full, "::"@, p));
        assert(contains(full, "::"@));
        assert(full.subrange(0, path.len() as int) =~= path);
        assert(forall|j: int| p < j ==> !occurs_at(full, "::"@, j)) by {
            assert forall|j: int| p < j implies !occurs_at(full, "::"@, j) by {
                if occurs_at(full, "::"@, j) {
                    assert(full.subrange(j, j + 2)[1] == ':');
                    assert(full[j + 1] == ':');
                    assert(full[j + 1] == name[j + 1 - path.len()]);
                }
            }
        }
        let k = last_sep(full);
        assert(occurs_at(full, "::"@, k) && forall|j: int| k < j ==> !occurs_at(full, "::"@, j));
        assert(k == p);
        assert(full.skip(k + 2) =~= name);
    }
}

/// std's failing macros are errors of a Rust body: a visited invocation of
/// `panic!`, `todo!` or `unimplemented!`, bare or under `std::` or
/// `core::`, is listed among the errors as written, with its `!`.
pub proof fn law_failing_macros_are_errors(
    ns: Seq<SyntaxNode>,
    src: Seq<u8>,
    k: int,
    path: Seq<char>,
    name: Seq<char>,
)
    requires
        0 <= k < ns.len(),
        ns[k].kind@ == "macro_invocation"@,
        first_child(ns[k]) matches Some(m) && text_of(m, src) == path + name,
        name == "panic"@ || name == "todo"@ || name == "unimplemented"@,
        path == ""@ || path == "std::"@ || path == "core::"@,
    ensures
        errors_of(ns, src, Language::Rust).contains(path + name + "!"@),
{
    lemma_std_failing(path, name);
    reveal_strlit("macro_invocation");
    reveal_strlit("call_expression");
    assert("macro_invocation"@.len() != "call_expression"@.len());
    assert(error_of(ns[k], src, Language::Rust) == Some(path + name + "!"@));
    lemma_errors_of_has(ns, src, Language::Rust, k);
}

/// How many `?` operators (Rust `try_expression`s) are among `ns`.
pub open spec fn tries_of(ns: Seq<SyntaxNode>, lang: Language) -> nat
    decreases ns.len(),
{
    if ns.len() == 0 {
        0
    } else {
        tries_of(ns.drop_last(), lang) + if lang == Language::Rust && ns.last().kind@
            == "try_expression"@ {
            1nat
        } else {
            0nat
        }
    }
}

/// Whether a macro name is one of std's failing macros.
fn stdlib_macro_exec(full: &[char]) -> (b: bool)
    ensures
        b == stdlib_macro(full@),
{
    let sep = chars_of("::");
    proof {
        reveal_strlit("::");
    }
    if has_substring(full, sep.as_slice()) {
        let std_p = chars_of("std::");
        let core_p = chars_of("core::");
        if !(has_prefix(full, std_p.as_slice()) || has_prefix(full, core_p.as_slice())) {
            return false;
        }
        match rfind(full, sep.as_slice()) {
            Some(k) => {
                assert(sep@ == "::"@);
                assert(occurs_at(full@, "::"@, k as int));
                let fl = full.len();
                assert(k + 2 <= fl);
                let leaf = copy_range(full, k + 2, full.len());
                assert(last_sep(full@) == k as int) by {
                    let c = last_sep(full@);
                    assert(occurs_at(full@, "::"@, c) && forall|j: int| c < j ==> !occurs_at(full@, "::"@, j));
                    assert(!(c < k) && !(k < c));
                }
                assert(leaf@ =~= full@.skip(last_sep(full@) + 2));
                let ls = string_of(leaf.as_slice());
                str_is(ls.as_str(), "panic") || str_is(ls.as_str(), "todo") || str_is(ls.as_str(), "unimplemented")
            },
            None => {
                false
            },
        }
    } else {
        let fs = string_of(full);
        str_is(fs.as_str(), "panic") || str_is(fs.as_str(), "todo") || str_is(fs.as_str(), "unimplemented")
    }
}

/// The error a `raise`/`throw` statement names (see `raised`).
fn raised_exec(n: &SyntaxNode, source: &[u8], k: &str, field: &str) -> (r: Option<Vec<char>>)
    ensures
        match r {
            Some(t) => raised(*n, source@, k@, field@) == Some(t@),
            None => raised(*n, source@, k@, field@) is None,
        },
{
    match first_named_child(n) {
        Some(expr) => {
            let name = if kind_is(expr, k) {
                match child_by_field(expr, field) {
                    Some(f) => node_text(f, source),
                    None => node_text(expr, source),
                }
            } else {
                node_text(expr, source)
            };
            let t = trimmed(name.as_slice());
            let ts = string_of(t.as_slice());
            let c = truncate(ts.as_str(), INSIGHT_ERROR_TRUNCATE);
            Some(chars_of(c.as_str()))
        },
        None => None,
    }
}

/// The error a node returns or raises (see `error_of`).
fn error_exec(n: &SyntaxNode, source: &[u8], lang: Language) -> (r: Option<Vec<char>>)
    ensures
        match r {
            Some(t) => error_of(*n, source@, lang) == Some(t@),
            None => error_of(*n, source@, lang) is None,
        },
{
    match lang {
        Language::Rust => {
            if kind_is(n, "call_expression") {
                match child_by_field(n, "function") {
                    Some(f) => {
                        let ft = node_text(f, source);
                        let fs = string_of(ft.as_slice());
                        if str_is(fs.as_str(), "Err") {
                            match child_by_field(n, "arguments") {
                                Some(a) => match first_named_child(a) {
                                    Some(inner) => {
                                        let t = trimmed(node_text(inner, source).as_slice());
                                        let ts = string_of(t.as_slice());
                                        let c = truncate(ts.as_str(), INSIGHT_ERROR_TRUNCATE);
                                        Some(chars_of(c.as_str()))
                                    },
                                    None => None,
                                },
                                None => None,
                            }
                        } else {
                            None
                        }
                    },
                    None => None,
                }
            } else if kind_is(n, "macro_invocation") {
                if n.children.len() > 0 {
                    let mut full = node_text(&n.children[0], source);
                    if stdlib_macro_exec(full.as_slice()) {
                        push_str(&mut full, "!");
                        Some(full)
                    } else {
                        None
                    }
                } else {
                    None
                }
            } else {
                None
            }
        },
        Language::Python => {
            if kind_is(n, "raise_statement") {
                raised_exec(n, source, "call", "function")
            } else {
                None
            }
        },
        Language::TypeScript | Language::JavaScript => {
            if kind_is(n, "throw_statement") {
                raised_exec(n, source, "new_expression", "constructor")
            } else {
                None
            }
        },
        Language::Go => {
            if kind_is(n, "call_expression") {
                match child_by_field(n, "function") {
                    Some(f) => {
                        let ft = node_text(f, source);
                        let fs = string_of(ft.as_slice());
                        if str_is(fs.as_str(), "errors.New") || str_is(fs.as_str(), "fmt.Errorf") {
                            let c = truncate(fs.as_str(), INSIGHT_ERROR_TRUNCATE);
                            Some(chars_of(c.as_str()))
                        } else {
                            None
                        }
                    },
                    None => None,
                }
            } else {
                None
            }
        },
        Language::Java => {
            if kind_is(n, "throw_statement") {
                raised_exec(n, source, "object_creation_expression", "type")
            } else {
                None
            }
        },
    }
}

/// Whether `x` is one of `v`.
fn has_text(v: &Vec<Vec<char>>, x: &[char]) -> (b: bool)
    ensures
        b == cviews(v@).contains(x@),
{
    let mut i: usize = 0;
    while i < v.len()
        invariant
            i <= v@.len(),
            forall|k: int| 0 <= k < i ==> cviews(v@)[k] != x@,
        decreases v@.len() - i,
    {
        if chars_eq(v[i].as_slice(), x) {
            assert(cviews(v@)[i as int] == x@);
            return true;
        }
        i += 1;
    }
    false
}

/// The errors the visited nodes `ns` return or raise, each once in the
/// order first named, and how many `?` they hold.
pub fn extract_error_returns(ns: &Vec<&SyntaxNode>, source: &[u8], lang: Language) -> (r: (Vec<String>, usize))
    ensures
        views(r.0@) == errors_of(derefs(ns@), source@, lang),
        r.1 == tries_of(derefs(ns@), lang),
{
    let ghost d = derefs(ns@);
    let mut errs: Vec<Vec<char>> = Vec::new();
    let mut tries: usize = 0;
    let mut i: usize = 0;
    while i < ns.len()
        invariant
            d == derefs(ns@),
            i <= ns@.len(),
            tries <= i,
            cviews(errs@) == errors_of(d.take(i as int), source@, lang),
            tries == tries_of(d.take(i as int), lang),
        decreases ns@.len() - i,
    {
        let n = ns[i];
        assert(*n == d[i as int]);
        assert(d.take(i + 1).drop_last() =~= d.take(i as int));
        if lang == Language::Rust && kind_is(n, "try_expression") {
            proof {
                reveal_strlit("try_expression");
                reveal_strlit("call_expression");
                reveal_strlit("macro_invocation");
                assert("try_expression"@[0] != "call_expression"@[0]);
                assert("try_expression"@[0] != "macro_invocation"@[0]);
                assert(error_of(*n, source@, lang) is None);
            }
            tries += 1;
        } else {
            match error_exec(n, source, lang) {
                Some(t) => {
                    if !has_text(&errs, t.as_slice()) {
                        let ghost e0 = cviews(errs@);
                        errs.push(t);
                        assert(cviews(errs@) =~= e0.push(t@));
                    }
                },
                None => {},
            }
        }
        i += 1;
    }
    assert(d.take(i as int) =~= d);
    let mut out: Vec<String> = Vec::new();
    let mut k: usize = 0;
    while k < errs.len()
        invariant
            k <= errs@.len(),
            views(out@) == cviews(errs@).take(k as int),
        decreases errs@.len() - k,
    {
        let ghost c0 = views(out@);
        out.push(string_of(errs[k].as_slice()));
        assert(views(out@) =~= c0.push(errs@[k as int]@));
        assert(cviews(errs@).take(k + 1) =~= cviews(errs@).take(k as int).push(errs@[k as int]@));
        k += 1;
    }
    assert(cviews(errs@).take(k as int) =~= cviews(errs@));
    (out, tries)
}

/// How the arms of a match or switch are read, per grammar.
#[derive(Debug, Clone, Copy, PartialEq, Eq, Structural)]
pub enum ArmStyle {
    Rust,
    Python,
    Script,
    GoExpression,
    GoType,
    Java,
}

/// A match target or arm: its text trimmed and cut to 30 characters.
pub open spec fn cut30(t: Seq<char>) -> Seq<char> {
    truncated(trim(t), INSIGHT_ARM_TRUNCATE as nat)
}

/// The position of the first named child of `cs` from `i` on that is not
/// a block (the pattern of a Python case clause).
pub open spec fn first_pattern_from(cs: Seq<SyntaxNode>, i: int) -> Option<int>
    decreases cs.len() - i,
{
    if i < 0 || i >= cs.len() {
        None
    } else if cs[i].named && cs[i].kind@ != "block"@ {
        Some(i)
    } else {
        first_pattern_from(cs, i + 1)
    }
}

/// The arm of a Java switch label: "default", or the label without
/// `case ` and `:`, trimmed and cut.
pub open spec fn label_arm(text: Seq<char>) -> Seq<char> {
    let t = trim(text);
    let c1 = match strip_prefix(t, "case "@) {
        Some(r) => r,
        None => t,
    };
    let c2 = match strip_suffix(c1, ":"@) {
        Some(r) => r,
        None => c1,
    };
    if c2 == "default"@ || starts_with(t, "default"@) {
        "default"@
    } else {
        cut30(c2)
    }
}

/// The arms of the switch labels among `cs`.
pub open spec fn label_arms(cs: Seq<SyntaxNode>, src: Seq<u8>) -> Seq<Seq<char>>
    decreases cs.len(),
{
    if cs.len() == 0 {
        Seq::empty()
    } else {
        label_arms(cs.drop_last(), src) + if cs.last().kind@ == "switch_label"@ {
            seq![label_arm(text_of(cs.last(), src))]
        } else {
            Seq::empty()
        }
    }
}

/// The text of an optional node, cut as an arm, as a list of at most one.
pub open spec fn arm_of(o: Option<SyntaxNode>, src: Seq<u8>) -> Seq<Seq<char>> {
    match o {
        Some(p) => seq![cut30(text_of(p, src))],
        None => Seq::empty(),
    }
}

/// The arms one child of a match or switch body gives.
pub open spec fn child_arms(c: SyntaxNode, src: Seq<u8>, style: ArmStyle) -> Seq<Seq<char>> {
    match style {
        ArmStyle::Rust => if c.kind@ == "match_arm"@ {
            arm_of(field_child(c, "pattern"@), src)
        } else {
            Seq::empty()
        },
        ArmStyle::Python => if c.kind@ == "case_clause"@ {
            arm_of(crate::index::syntax::child_at(c, first_pattern_from(c.children@, 0)), src)
        } else {
            Seq::empty()
        },
        ArmStyle::Script => if c.kind@ == "switch_case"@ {
            arm_of(field_child(c, "value"@), src)
        } else if c.kind@ == "switch_default"@ {
            seq!["default"@]
        } else {
            Seq::empty()
        },
        ArmStyle::GoExpression => if c.kind@ == "expression_case"@ {
            arm_of(field_child(c, "value"@), src)
        } else if c.kind@ == "default_case"@ {
            seq!["default"@]
        } else {
            Seq::empty()
        },
        ArmStyle::GoType => if c.kind@ == "type_case"@ {
            arm_of(named_child(c), src)
        } else if c.kind@ == "default_case"@ {
            seq!["default"@]
        } else {
            Seq::empty()
        },
        ArmStyle::Java => if c.kind@ == "switch_block_statement_group"@ || c.kind@ == "switch_rule"@ {
            label_arms(c.children@, src)
        } else {
            Seq::empty()
        },
    }
}

/// The arms the children `cs` of a match or switch body give, in order.
pub open spec fn arm_list(cs: Seq<SyntaxNode>, src: Seq<u8>, style: ArmStyle) -> Seq<Seq<char>>
    decreases cs.len(),
{
    if cs.len() == 0 {
        Seq::empty()
    } else {
        arm_list(cs.drop_last(), src, style) + child_arms(cs.last(), src, style)
    }
}

/// A parenthesized expression's inner expression (its second child).
pub open spec fn unparen(v: SyntaxNode) -> SyntaxNode {
    if v.kind@ == "parenthesized_expression"@ && v.children@.len() > 1 {
        v.children@[1]
    } else {
        v
    }
}

/// The target and arms of a match or switch at node `n`, per language.
pub open spec fn single_match(n: SyntaxNode, src: Seq<u8>, lang: Language) -> Option<
    (Seq<char>, Seq<Seq<char>>),
> {
    match lang {
        Language::Rust => if n.kind@ == "match_expression"@ {
            match field_child(n, "value"@) {
                None => None,
                Some(v) => match kind_child(n, "match_block"@) {
                    None => None,
                    Some(b) => Some((cut30(text_of(v, src)), arm_list(b.children@, src, ArmStyle::Rust))),
                },
            }
        } else {
            None
        },
        Language::Python => if n.kind@ == "match_statement"@ {
            match field_child(n, "subject"@) {
                None => None,
                Some(v) => {
                    let search = match field_child(n, "body"@) {
                        Some(b) => b,
                        None => n,
                    };
                    Some((cut30(text_of(v, src)), arm_list(search.children@, src, ArmStyle::Python)))
                },
            }
        } else {
            None
        },
        Language::TypeScript | Language::JavaScript => if n.kind@ == "switch_statement"@ {
            match field_child(n, "value"@) {
                None => None,
                Some(v) => match kind_child(n, "switch_body"@) {
                    None => None,
                    Some(b) => Some(
                        (cut30(text_of(unparen(v), src)), arm_list(b.children@, src, ArmStyle::Script)),
                    ),
                },
            }
        } else {
            None
        },
        Language::Go => if n.kind@ == "expression_switch_statement"@ {
            let target = match field_child(n, "value"@) {
                Some(v) => cut30(text_of(v, src)),
                None => Seq::empty(),
            };
            Some((target, arm_list(n.children@, src, ArmStyle::GoExpression)))
        } else if n.kind@ == "type_switch_statement"@ {
            Some(("type"@, arm_list(n.children@, src, ArmStyle::GoType)))
        } else {
            None
        },
        Language::Java => if n.kind@ == "switch_expression"@ || n.kind@ == "switch_statement"@ {
            match field_child(n, "condition"@) {
                None => None,
                Some(v) => match field_child(n, "body"@) {
                    None => None,
                    Some(b) => Some(
                        (cut30(text_of(unparen(v), src)), arm_list(b.children@, src, ArmStyle::Java)),
                    ),
                },
            }
        } else {
            None
        },
    }
}

/// The matches among the nodes `ns`, in order.
pub open spec fn matches_of(ns: Seq<SyntaxNode>, src: Seq<u8>, lang: Language) -> Seq<
    (Seq<char>, Seq<Seq<char>>),
>
    decreases ns.len(),
{
    if ns.len() == 0 {
        Seq::empty()
    } else {
        let m = matches_of(ns.drop_last(), src, lang);
        match single_match(ns.last(), src, lang) {
            Some(x) => m.push(x),
            None => m,
        }
    }
}

/// A match insight as texts.
pub open spec fn insight_view(m: MatchInsight) -> (Seq<char>, Seq<Seq<char>>) {
    (m.target@, views(m.arms@))
}

/// A text trimmed and cut to 30 characters.
fn cut30_exec(t: &[char]) -> (r: Vec<char>)
    ensures
        r@ == cut30(t@),
{
    let tr = trimmed(t);
    let s = string_of(tr.as_slice());
    let c = truncate(s.as_str(), INSIGHT_ARM_TRUNCATE);
    chars_of(c.as_str())
}

/// The arm of a Java switch label (see `label_arm`).
fn label_arm_exec(text: &[char]) -> (r: Vec<char>)
    ensures
        r@ == label_arm(text@),
{
    let t = trimmed(text);
    let cp = chars_of("case ");
    let c1 = match crate::text::strip_prefix_exec(t.as_slice(), cp.as_slice()) {
        Some(r) => r,
        None => copy_range(t.as_slice(), 0, t.len()),
    };
    assert(c1@ == match strip_prefix(t@, "case "@) {
        Some(r) => r,
        None => t@,
    });
    let colon = chars_of(":");
    let c2 = match crate::text::strip_suffix_exec(c1.as_slice(), colon.as_slice()) {
        Some(r) => r,
        None => copy_range(c1.as_slice(), 0, c1.len()),
    };
    assert(c2@ == match strip_suffix(c1@, ":"@) {
        Some(r) => r,
        None => c1@,
    });
    let d = chars_of("default");
    if chars_eq(c2.as_slice(), d.as_slice()) || has_prefix(t.as_slice(), d.as_slice()) {
        d
    } else {
        cut30_exec(c2.as_slice())
    }
}

/// The arms one child of a match or switch body gives (see `child_arms`).
fn child_arms_exec(c: &SyntaxNode, source: &[u8], style: ArmStyle) -> (r: Vec<Vec<char>>)
    ensures
        cviews(r@) == child_arms(*c, source@, style),
{
    let mut r: Vec<Vec<char>> = Vec::new();
    match style {
        ArmStyle::Rust => {
            if kind_is(c, "match_arm") {
                match child_by_field(c, "pattern") {
                    Some(p) => r.push(cut30_exec(node_text(p, source).as_slice())),
                    None => {},
                }
            }
        },
        ArmStyle::Python => {
            if kind_is(c, "case_clause") {
                let mut i: usize = 0;
                let mut found: Option<usize> = None;
                while found.is_none() && i < c.children.len()
                    invariant
                        i <= c.children@.len(),
                        found is None ==> first_pattern_from(c.children@, 0) == first_pattern_from(c.children@, i as int),
                        found matches Some(k) ==> first_pattern_from(c.children@, 0) == Some(k as int) && k < c.children@.len(),
                    decreases c.children@.len() - i, if found is None { 1int } else { 0int },
                {
                    let ch = &c.children[i];
                    if ch.named && !kind_is(ch, "block") {
                        found = Some(i);
                    } else {
                        i += 1;
                    }
                }
                match found {
                    Some(k) => r.push(cut30_exec(node_text(&c.children[k], source).as_slice())),
                    None => {},
                }
            }
        },
        ArmStyle::Script => {
            if kind_is(c, "switch_case") {
                match child_by_field(c, "value") {
                    Some(p) => r.push(cut30_exec(node_text(p, source).as_slice())),
                    None => {},
                }
            } else if kind_is(c, "switch_default") {
                r.push(chars_of("default"));
            }
        },
        ArmStyle::GoExpression => {
            if kind_is(c, "expression_case") {
                match child_by_field(c, "value") {
                    Some(p) => r.push(cut30_exec(node_text(p, source).as_slice())),
                    None => {},
                }
            } else if kind_is(c, "default_case") {
                r.push(chars_of("default"));
            }
        },
        ArmStyle::GoType => {
            if kind_is(c, "type_case") {
                match first_named_child(c) {
                    Some(p) => r.push(cut30_exec(node_text(p, source).as_slice())),
                    None => {},
                }
            } else if kind_is(c, "default_case") {
                r.push(chars_of("default"));
            }
        },
        ArmStyle::Java => {
            if kind_is(c, "switch_block_statement_group") || kind_is(c, "switch_rule") {
                let mut i: usize = 0;
                assert(c.children@.take(0) =~= Seq::<SyntaxNode>::empty());
                while i < c.children.len()
                    invariant
                        i <= c.children@.len(),
                        cviews(r@) == label_arms(c.children@.take(i as int), source@),
                    decreases c.children@.len() - i,
                {
                    let l = &c.children[i];
                    assert(c.children@.take(i + 1).drop_last() =~= c.children@.take(i as int));
                    if kind_is(l, "switch_label") {
                        let a = label_arm_exec(node_text(l, source).as_slice());
                        let ghost r0 = cviews(r@);
                        r.push(a);
                        assert(cviews(r@) =~= r0.push(a@));
                    }
                    i += 1;
                }
                assert(c.children@.take(i as int) =~= c.children@);
            }
        },
    }
    assert(cviews(r@) =~= child_arms(*c, source@, style));
    r
}

/// The arms the children of a match or switch body give, as strings.
fn arm_list_exec(cs: &Vec<SyntaxNode>, source: &[u8], style: ArmStyle) -> (r: Vec<String>)
    ensures
        views(r@) == arm_list(cs@, source@, style),
{
    let mut r: Vec<String> = Vec::new();
    let mut i: usize = 0;
    assert(cs@.take(0) =~= Seq::<SyntaxNode>::empty());
    while i < cs.len()
        invariant
            i <= cs@.len(),
            views(r@) == arm_list(cs@.take(i as int), source@, style),
        decreases cs@.len() - i,
    {
        let a = child_arms_exec(&cs[i], source, style);
        let ghost r0 = views(r@);
        let mut k: usize = 0;
        while k < a.len()
            invariant
                k <= a@.len(),
                views(r@) == r0 + cviews(a@).take(k as int),
            decreases a@.len() - k,
        {
            let ghost r1 = views(r@);
            r.push(string_of(a[k].as_slice()));
            assert(views(r@) =~= r1.push(a@[k as int]@));
            assert(cviews(a@).take(k + 1) =~= cviews(a@).take(k as int).push(a@[k as int]@));
            k += 1;
        }
        assert(cviews(a@).take(k as int) =~= cviews(a@));
        assert(cs@.take(i + 1).drop_last() =~= cs@.take(i as int));
        i += 1;
    }
    assert(cs@.take(i as int) =~= cs@);
    r
}

/// A parenthesized expression's inner expression (see `unparen`).
fn unparen_exec(v: &SyntaxNode) -> (r: &SyntaxNode)
    ensures
        *r == unparen(*v),
{
    if kind_is(v, "parenthesized_expression") && v.children.len() > 1 {
        &v.children[1]
    } else {
        v
    }
}

/// The target and arms of a match or switch at node `n` (see
/// `single_match`).
fn single_match_exec(n: &SyntaxNode, source: &[u8], lang: Language) -> (r: Option<MatchInsight>)
    ensures
        match r {
            Some(m) => single_match(*n, source@, lang) == Some(insight_view(m)),
            None => single_match(*n, source@, lang) is None,
        },
{
    match lang {
        Language::Rust => {
            if !kind_is(n, "match_expression") {
                return None;
            }
            let v = match child_by_field(n, "value") {
                Some(v) => v,
                None => return None,
            };
            let b = match find_child(n, "match_block") {
                Some(b) => b,
                None => return None,
            };
            let t = cut30_exec(node_text(v, source).as_slice());
            Some(MatchInsight { target: string_of(t.as_slice()), arms: arm_list_exec(&b.children, source, ArmStyle::Rust) })
        },
        Language::Python => {
            if !kind_is(n, "match_statement") {
                return None;
            }
            let v = match child_by_field(n, "subject") {
                Some(v) => v,
                None => return None,
            };
            let search = match child_by_field(n, "body") {
                Some(b) => b,
                None => n,
            };
            let t = cut30_exec(node_text(v, source).as_slice());
            Some(MatchInsight { target: string_of(t.as_slice()), arms: arm_list_exec(&search.children, source, ArmStyle::Python) })
        },
        Language::TypeScript | Language::JavaScript => {
            if !kind_is(n, "switch_statement") {
                return None;
            }
            let v = match child_by_field(n, "value") {
                Some(v) => v,
                None => return None,
            };
            let b = match find_child(n, "switch_body") {
                Some(b) => b,
                None => return None,
            };
            let t = cut30_exec(node_text(unparen_exec(v), source).as_slice());
            Some(MatchInsight { target: string_of(t.as_slice()), arms: arm_list_exec(&b.children, source, ArmStyle::Script) })
        },
        Language::Go => {
            if kind_is(n, "expression_switch_statement") {
                let t = match child_by_field(n, "value") {
                    Some(v) => cut30_exec(node_text(v, source).as_slice()),
                    None => Vec::new(),
                };
                Some(MatchInsight { target: string_of(t.as_slice()), arms: arm_list_exec(&n.children, source, ArmStyle::GoExpression) })
            } else if kind_is(n, "type_switch_statement") {
                Some(MatchInsight { target: String::from_str("type"), arms: arm_list_exec(&n.children, source, ArmStyle::GoType) })
            } else {
                None
            }
        },
        Language::Java => {
            if !(kind_is(n, "switch_expression") || kind_is(n, "switch_statement")) {
                return None;
            }
            let v = match child_by_field(n, "condition") {
                Some(v) => v,
                None => return None,
            };
            let b = match child_by_field(n, "body") {
                Some(b) => b,
                None => return None,
            };
            let t = cut30_exec(node_text(unparen_exec(v), source).as_slice());
            Some(MatchInsight { target: string_of(t.as_slice()), arms: arm_list_exec(&b.children, source, ArmStyle::Java) })
        },
    }
}

/// The matches and switches among the visited nodes `ns`, in order, each
/// with its target and arms.
pub fn extract_match_arms(ns: &Vec<&SyntaxNode>, source: &[u8], lang: Language) -> (r: Vec<MatchInsight>)
    ensures
        r@.map_values(|m: MatchInsight| insight_view(m)) == matches_of(derefs(ns@), source@, lang),
{
    let ghost d = derefs(ns@);
    let mut r: Vec<MatchInsight> = Vec::new();
    let mut i: usize = 0;
    assert(r@.map_values(|m: MatchInsight| insight_view(m)) =~= matches_of(d.take(0), source@, lang));
    while i < ns.len()
        invariant
            d == derefs(ns@),
            i <= ns@.len(),
            r@.map_values(|m: MatchInsight| insight_view(m)) == matches_of(d.take(i as int), source@, lang),
        decreases ns@.len() - i,
    {
        let n = ns[i];
        assert(*n == d[i as int]);
        assert(d.take(i + 1).drop_last() =~= d.take(i as int));
        match single_match_exec(n, source, lang) {
            Some(m) => {
                let ghost r0 = r@.map_values(|m: MatchInsight| insight_view(m));
                let ghost mv = insight_view(m);
                r.push(m);
                assert(r@.map_values(|m: MatchInsight| insight_view(m)) =~= r0.push(mv));
            },
            None => {},
        }
        i += 1;
    }
    assert(d.take(i as int) =~= d);
    r
}

/// What the body of a function or method does (see `BodyInsights`), from
/// the nodes its body walk visits; nothing when the node has no body.
pub open spec fn body_insights_of(n: SyntaxNode, src: Seq<u8>, lang: Language) -> (
    Set<Seq<char>>,
    Set<Seq<char>>,
    Seq<(Seq<char>, Seq<Seq<char>>)>,
    Seq<Seq<char>>,
    nat,
) {
    match field_child(n, "body"@) {
        Some(b) => {
            let ns = visit(b, lang);
            (
                call_names(ns, src, lang, false),
                call_names(ns, src, lang, true),
                matches_of(ns, src, lang),
                errors_of(ns, src, lang),
                tries_of(ns, lang),
            )
        },
        None => (Set::empty(), Set::empty(), Seq::empty(), Seq::empty(), 0),
    }
}

/// What the body of a function or method node does: its calls (free and
/// method, sorted), its matches, its errors and its `?` count; nothing when
/// it has no body.
pub fn analyze_body(node: &SyntaxNode, source: &[u8], lang: Language) -> (r: BodyInsights)
    ensures
        ({
            let (free, meth, ms, errs, tries) = body_insights_of(*node, source@, lang);
            &&& views(r.calls@) == sorted_set(free)
            &&& views(r.method_calls@) == sorted_set(meth)
            &&& r.match_arms@.map_values(|m: MatchInsight| insight_view(m)) == ms
            &&& views(r.error_returns@) == errs
            &&& r.try_count == tries
        }),
{
    match child_by_field(node, "body") {
        None => {
            let r = BodyInsights::default();
            proof {
                lemma_is_sorted_set(Seq::<Seq<char>>::empty());
                assert(Seq::<Seq<char>>::empty().to_set() =~= Set::<Seq<char>>::empty());
                assert(views(r.calls@) =~= Seq::<Seq<char>>::empty());
                assert(views(r.method_calls@) =~= Seq::<Seq<char>>::empty());
                assert(views(r.error_returns@) =~= Seq::<Seq<char>>::empty());
                assert(r.match_arms@.map_values(|m: MatchInsight| insight_view(m)) =~= Seq::<(Seq<char>, Seq<Seq<char>>)>::empty());
            }
            r
        },
        Some(b) => {
            let mut ns: Vec<&SyntaxNode> = Vec::new();
            collect_visit(b, lang, &mut ns);
            assert(derefs(ns@) =~= visit(*b, lang));
            let (calls, method_calls) = extract_calls(&ns, source, lang);
            let match_arms = extract_match_arms(&ns, source, lang);
            let (error_returns, try_count) = extract_error_returns(&ns, source, lang);
            BodyInsights { calls, method_calls, match_arms, error_returns, try_count }
        },
    }
}

} // verus!

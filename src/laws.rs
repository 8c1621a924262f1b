use vstd::prelude::*;

use crate::config::{lookup, Val};
use crate::render::{cased, eval, render_spec, Fault};
use crate::syntax::{build, find_pair, parse_spec, token_at, Case, NodeV};

verus! {

/// Rendering is a function of the template name, the configuration and the
/// registry alone: rendering twice with the same inputs gives the same text,
/// or the same error. (`render_template` returns exactly `render_spec`.)
pub proof fn law_render_idempotent(
    name: Seq<char>,
    cfg: Seq<(Seq<char>, Val)>,
    reg: Seq<(Seq<char>, Seq<char>)>,
)
    ensures
        render_spec(name, cfg, reg) == render_spec(name, cfg, reg),
{
}

/// Text without `{{` holds no directive.
pub open spec fn no_directive(s: Seq<char>) -> bool {
    forall|k: int| 0 <= k < s.len() - 1 ==> !(s[k] == '{' && #[trigger] s[k + 1] == '{')
}

proof fn lemma_no_open(s: Seq<char>, i: int)
    requires
        no_directive(s),
        0 <= i <= s.len(),
    ensures
        find_pair(s, i, '{') == s.len(),
    decreases s.len() - i,
{
    if i + 1 < s.len() {
        assert(!(s[i] == '{' && s[i + 1] == '{'));
        lemma_no_open(s, i + 1);
    }
}

/// A text without directives parses to one literal node (none for the empty
/// text) and renders to itself, whatever the configuration and registry.
pub proof fn law_plain_text_round_trip(
    s: Seq<char>,
    cfg: Seq<(Seq<char>, Val)>,
    reg: Seq<(Seq<char>, Seq<char>)>,
    cur: Seq<char>,
    path: Seq<Seq<char>>,
)
    requires
        no_directive(s),
    ensures
        parse_spec(s) matches Ok(ns) && ns == (if s.len() == 0 {
            Seq::<NodeV>::empty()
        } else {
            seq![NodeV::Lit(s)]
        }) && eval(ns, cfg, reg, cur, path) == Ok::<Seq<char>, Fault>(s),
{
    if s.len() > 0 {
        lemma_no_open(s, 0);
        assert(s.subrange(0, s.len() as int) =~= s);
        assert(token_at(s, 0) == Ok::<(crate::syntax::Lexeme, int), crate::syntax::SyntaxError>(
            (crate::syntax::Lexeme::Text(s), s.len() as int),
        ));
        assert(build(s, s.len() as int) == Ok::<
            (Seq<NodeV>, int, crate::syntax::Stop),
            crate::syntax::SyntaxError,
        >((Seq::empty(), s.len() as int, crate::syntax::Stop::Eof)));
        assert(seq![NodeV::Lit(s)] + Seq::<NodeV>::empty() =~= seq![NodeV::Lit(s)]);
        let ns = seq![NodeV::Lit(s)];
        assert(ns.drop_first() =~= Seq::<NodeV>::empty());
        assert(eval(ns.drop_first(), cfg, reg, cur, path) == Ok::<Seq<char>, Fault>(
            Seq::empty(),
        ));
        assert(s + Seq::<char>::empty() =~= s);
    } else {
        assert(s =~= Seq::<char>::empty());
    }
}

/// Nodes made only of literal text and placeholders.
pub open spec fn is_flat(ns: Seq<NodeV>) -> bool {
    forall|k: int| 0 <= k < ns.len() ==> (#[trigger] ns[k] is Lit || ns[k] is Var)
}

/// Every placeholder among `ns` names a string variable of `cfg`.
pub open spec fn all_bound(ns: Seq<NodeV>, cfg: Seq<(Seq<char>, Val)>) -> bool {
    forall|k: int|
        0 <= k < ns.len() ==> (#[trigger] ns[k] matches NodeV::Var(x, _) ==> lookup(cfg, x) matches Some(
            Val::Text(_),
        ))
}

/// The literal texts of `ns`, with each placeholder replaced by its value.
pub open spec fn substituted(ns: Seq<NodeV>, cfg: Seq<(Seq<char>, Val)>) -> Seq<char>
    decreases ns.len(),
{
    if ns.len() == 0 {
        Seq::empty()
    } else {
        let piece = match ns[0] {
            NodeV::Lit(t) => t,
            NodeV::Var(x, c) => match lookup(cfg, x) {
                Some(Val::Text(v)) => cased(v, c),
                _ => Seq::empty(),
            },
            _ => Seq::empty(),
        };
        piece + substituted(ns.drop_first(), cfg)
    }
}

/// Nodes free of conditionals and inclusions, whose placeholders are all
/// bound to strings, render to their literal text with each placeholder
/// substituted.
pub proof fn law_flat_substitution(
    ns: Seq<NodeV>,
    cfg: Seq<(Seq<char>, Val)>,
    reg: Seq<(Seq<char>, Seq<char>)>,
    cur: Seq<char>,
    path: Seq<Seq<char>>,
)
    requires
        is_flat(ns),
        all_bound(ns, cfg),
    ensures
        eval(ns, cfg, reg, cur, path) == Ok::<Seq<char>, Fault>(substituted(ns, cfg)),
    decreases ns.len(),
{
    if ns.len() > 0 {
        let rest = ns.drop_first();
        assert forall|k: int| 0 <= k < rest.len() implies (#[trigger] rest[k] is Lit
            || rest[k] is Var) by {
            assert(rest[k] == ns[k + 1]);
        }
        assert forall|k: int| 0 <= k < rest.len() implies (#[trigger] rest[k] matches NodeV::Var(
            x,
            _,
        ) ==> lookup(cfg, x) matches Some(Val::Text(_))) by {
            assert(rest[k] == ns[k + 1]);
        }
        law_flat_substitution(rest, cfg, reg, cur, path);
        assert(ns[0] is Lit || ns[0] is Var);
    }
}

/// A conditional renders exactly its first branch when its flag is true and
/// exactly its second when the flag is false.
pub proof fn law_conditional_branches(
    x: Seq<char>,
    a: Seq<NodeV>,
    b: Seq<NodeV>,
    cfg: Seq<(Seq<char>, Val)>,
    reg: Seq<(Seq<char>, Seq<char>)>,
    cur: Seq<char>,
    path: Seq<Seq<char>>,
)
    ensures
        lookup(cfg, x) == Some(Val::Flag(true)) ==> eval(
            seq![NodeV::Cond(x, a, b)],
            cfg,
            reg,
            cur,
            path,
        ) == eval(a, cfg, reg, cur, path),
        lookup(cfg, x) == Some(Val::Flag(false)) ==> eval(
            seq![NodeV::Cond(x, a, b)],
            cfg,
            reg,
            cur,
            path,
        ) == eval(b, cfg, reg, cur, path),
{
    let ns = seq![NodeV::Cond(x, a, b)];
    assert(ns.drop_first() =~= Seq::<NodeV>::empty());
    assert(eval(ns.drop_first(), cfg, reg, cur, path) == Ok::<Seq<char>, Fault>(Seq::empty()));
    if let Ok(t) = eval(a, cfg, reg, cur, path) {
        assert(t + Seq::<char>::empty() =~= t);
    }
    if let Ok(t) = eval(b, cfg, reg, cur, path) {
        assert(t + Seq::<char>::empty() =~= t);
    }
}

/// Two templates that each consist of an inclusion of the other fail to
/// render with a cyclic-inclusion error, found where the second one would
/// enter the first again.
pub proof fn law_mutual_inclusion_cycle(
    t1: Seq<char>,
    t2: Seq<char>,
    cfg: Seq<(Seq<char>, Val)>,
    reg: Seq<(Seq<char>, Seq<char>)>,
)
    requires
        t1 != t2,
        lookup(reg, t1) matches Some(s1) && parse_spec(s1) == Ok::<
            Seq<NodeV>,
            crate::syntax::SyntaxError,
        >(seq![NodeV::Embed(t2)]),
        lookup(reg, t2) matches Some(s2) && parse_spec(s2) == Ok::<
            Seq<NodeV>,
            crate::syntax::SyntaxError,
        >(seq![NodeV::Embed(t1)]),
    ensures
        render_spec(t1, cfg, reg) == Err::<Seq<char>, Fault>(Fault::CyclicInclusion(t2, t1)),
{
    let p1 = seq![t1];
    let p2 = p1.push(t2);
    assert(reg.len() > 0);
    assert(p2[0] == t1);
    assert(p2.contains(t1));
    assert(!p1.contains(t2)) by {
        if p1.contains(t2) {
            let k = choose|k: int| 0 <= k < p1.len() && p1[k] == t2;
            assert(p1[k] == t1);
        }
    }
    let n2 = seq![NodeV::Embed(t1)];
    let n1 = seq![NodeV::Embed(t2)];
    assert(eval(n2, cfg, reg, t2, p2) == Err::<Seq<char>, Fault>(Fault::CyclicInclusion(t2, t1)));
    assert(eval(n1, cfg, reg, t1, p1) == Err::<Seq<char>, Fault>(Fault::CyclicInclusion(t2, t1)));
}

/// Including a template that is already being rendered fails with a
/// cyclic-inclusion error, whatever follows the inclusion.
pub proof fn law_reentry_is_cyclic(
    n: Seq<char>,
    rest: Seq<NodeV>,
    cfg: Seq<(Seq<char>, Val)>,
    reg: Seq<(Seq<char>, Seq<char>)>,
    cur: Seq<char>,
    path: Seq<Seq<char>>,
)
    requires
        lookup(reg, n) is Some,
        path.contains(n),
    ensures
        eval(seq![NodeV::Embed(n)] + rest, cfg, reg, cur, path) == Err::<Seq<char>, Fault>(
            Fault::CyclicInclusion(cur, n),
        ),
{
    let ns = seq![NodeV::Embed(n)] + rest;
    assert(ns[0] == NodeV::Embed(n));
}

/// A placeholder naming a variable that the configuration lacks makes the
/// rendering fail with an undefined-variable error naming that variable,
/// whatever follows it.
pub proof fn law_undefined_placeholder(
    x: Seq<char>,
    c: Case,
    rest: Seq<NodeV>,
    cfg: Seq<(Seq<char>, Val)>,
    reg: Seq<(Seq<char>, Seq<char>)>,
    cur: Seq<char>,
    path: Seq<Seq<char>>,
)
    requires
        lookup(cfg, x) is None,
    ensures
        eval(seq![NodeV::Var(x, c)] + rest, cfg, reg, cur, path) == Err::<Seq<char>, Fault>(
            Fault::UndefinedVariable(cur, x),
        ),
{
    let ns = seq![NodeV::Var(x, c)] + rest;
    assert(ns[0] == NodeV::Var(x, c));
}

} // verus!

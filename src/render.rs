use vstd::prelude::*;
use vstd::string::StringExecFns;

use crate::config::{lookup, Configuration, Registry, Val, Value};
use crate::syntax::{
    lemma_nodes_view_index, node_view, nodes_view, parse, parse_spec, Case, Node, NodeV,
    SyntaxError,
};
use crate::text::{chars_of, push_char};

verus! {

/// Why a render failed. Each variant names the template in which the
/// problem was found.
pub enum RenderError {
    /// The template's text does not parse.
    Syntax { template: String, error: SyntaxError },
    /// A placeholder or conditional names a variable the configuration lacks.
    UndefinedVariable { template: String, name: String },
    /// A conditional names a string variable, or a placeholder a flag.
    TypeMismatch { template: String, name: String },
    /// A template that the registry does not hold was asked for.
    UnknownTemplate { template: String, name: String },
    /// A template would be entered again while it is being rendered.
    CyclicInclusion { template: String, name: String },
}

/// The mathematical form of a [`RenderError`].
pub ghost enum Fault {
    Syntax(Seq<char>, SyntaxError),
    UndefinedVariable(Seq<char>, Seq<char>),
    TypeMismatch(Seq<char>, Seq<char>),
    UnknownTemplate(Seq<char>, Seq<char>),
    CyclicInclusion(Seq<char>, Seq<char>),
}

impl View for RenderError {
    type V = Fault;

    open spec fn view(&self) -> Fault {
        match self {
            RenderError::Syntax { template, error } => Fault::Syntax(template@, *error),
            RenderError::UndefinedVariable { template, name } => Fault::UndefinedVariable(
                template@,
                name@,
            ),
            RenderError::TypeMismatch { template, name } => Fault::TypeMismatch(template@, name@),
            RenderError::UnknownTemplate { template, name } => Fault::UnknownTemplate(
                template@,
                name@,
            ),
            RenderError::CyclicInclusion { template, name } => Fault::CyclicInclusion(
                template@,
                name@,
            ),
        }
    }
}

/// `v` with its first character made upper case when it is an ASCII
/// lower-case letter.
pub open spec fn capitalize(v: Seq<char>) -> Seq<char> {
    if v.len() > 0 && 'a' <= v[0] && v[0] <= 'z' {
        v.update(0, ((v[0] as u8) - 32) as u8 as char)
    } else {
        v
    }
}

pub open spec fn cased(v: Seq<char>, c: Case) -> Seq<char> {
    if c == Case::Capitalized {
        capitalize(v)
    } else {
        v
    }
}

/// The first failure of `a` then `b`, or both texts one after the other.
pub open spec fn join(a: Result<Seq<char>, Fault>, b: Result<Seq<char>, Fault>) -> Result<
    Seq<char>,
    Fault,
> {
    match a {
        Err(e) => Err(e),
        Ok(x) => match b {
            Err(e) => Err(e),
            Ok(y) => Ok(x + y),
        },
    }
}

pub open spec fn path_view(p: Seq<String>) -> Seq<Seq<char>> {
    p.map_values(|s: String| s@)
}

/// The text of the nodes `ns` of template `cur` under `cfg`, where `path`
/// lists the templates being rendered, outermost first.
pub open spec fn eval(
    ns: Seq<NodeV>,
    cfg: Seq<(Seq<char>, Val)>,
    reg: Seq<(Seq<char>, Seq<char>)>,
    cur: Seq<char>,
    path: Seq<Seq<char>>,
) -> Result<Seq<char>, Fault>
    decreases reg.len() + 1 - path.len(), ns,
{
    if ns.len() == 0 {
        Ok(Seq::empty())
    } else {
        let head = match ns[0] {
            NodeV::Lit(t) => Ok(t),
            NodeV::Var(x, c) => match lookup(cfg, x) {
                None => Err(Fault::UndefinedVariable(cur, x)),
                Some(Val::Flag(_)) => Err(Fault::TypeMismatch(cur, x)),
                Some(Val::Text(v)) => Ok(cased(v, c)),
            },
            NodeV::Cond(x, a, b) => match lookup(cfg, x) {
                None => Err(Fault::UndefinedVariable(cur, x)),
                Some(Val::Text(_)) => Err(Fault::TypeMismatch(cur, x)),
                Some(Val::Flag(f)) => if f {
                    eval(a, cfg, reg, cur, path)
                } else {
                    eval(b, cfg, reg, cur, path)
                },
            },
            NodeV::Embed(n) => match lookup(reg, n) {
                None => Err(Fault::UnknownTemplate(cur, n)),
                Some(text) => if path.contains(n) || path.len() > reg.len() {
                    Err(Fault::CyclicInclusion(cur, n))
                } else {
                    match parse_spec(text) {
                        Err(e) => Err(Fault::Syntax(n, e)),
                        Ok(ms) => eval(ms, cfg, reg, n, path.push(n)),
                    }
                },
            },
        };
        join(head, eval(ns.drop_first(), cfg, reg, cur, path))
    }
}

/// The rendering of the template registered under `name`.
pub open spec fn render_spec(
    name: Seq<char>,
    cfg: Seq<(Seq<char>, Val)>,
    reg: Seq<(Seq<char>, Seq<char>)>,
) -> Result<Seq<char>, Fault> {
    match lookup(reg, name) {
        None => Err(Fault::UnknownTemplate(name, name)),
        Some(text) => match parse_spec(text) {
            Err(e) => Err(Fault::Syntax(name, e)),
            Ok(ns) => eval(ns, cfg, reg, name, seq![name]),
        },
    }
}

/// `v` with its first character made upper case when it is an ASCII
/// lower-case letter.
fn capitalized(v: &String) -> (r: String)
    ensures
        r@ == capitalize(v@),
{
    let cs = chars_of(v.as_str());
    let mut r = String::new();
    let mut k: usize = 0;
    while k < cs.len()
        invariant
            k <= cs.len(),
            cs@ == v@,
            r@ == capitalize(v@).take(k as int),
        decreases cs.len() - k,
    {
        let c = cs[k];
        if k == 0 && 'a' <= c && c <= 'z' {
            push_char(&mut r, ((c as u8) - 32) as char);
        } else {
            push_char(&mut r, c);
        }
        k = k + 1;
        assert(r@ =~= capitalize(v@).take(k as int));
    }
    assert(capitalize(v@).take(k as int) =~= capitalize(v@));
    r
}

/// Whether `n` is on `path`.
fn on_path(path: &Vec<String>, n: &String) -> (r: bool)
    ensures
        r == path_view(path@).contains(n@),
{
    let mut i: usize = 0;
    while i < path.len()
        invariant
            i <= path.len(),
            forall|m: int| 0 <= m < i ==> path@[m]@ != n@,
        decreases path.len() - i,
    {
        if path[i] == *n {
            assert(path_view(path@)[i as int] == n@);
            return true;
        }
        i = i + 1;
    }
    assert(!path_view(path@).contains(n@)) by {
        if path_view(path@).contains(n@) {
            let m = choose|m: int| 0 <= m < path_view(path@).len() && path_view(path@)[m] == n@;
            assert(path@[m]@ == n@);
        }
    }
    false
}

proof fn lemma_join_assoc(p: Seq<char>, a: Result<Seq<char>, Fault>, b: Result<Seq<char>, Fault>)
    ensures
        a is Ok ==> join(Ok(p), join(a, b)) == join(Ok(p + a->Ok_0), b),
{
    if let Ok(x) = a {
        if let Ok(y) = b {
            assert(p + (x + y) =~= (p + x) + y);
        }
    }
}

/// Appends to `out` the text of the nodes `v` of template `cur`.
fn eval_into(
    v: &Vec<Node>,
    cfg: &Configuration,
    reg: &Registry,
    cur: &String,
    path: &mut Vec<String>,
    out: &mut String,
) -> (r: Result<(), RenderError>)
    ensures
        path_view(final(path)@) == path_view(old(path)@),
        match eval(nodes_view(v@), cfg@, reg@, cur@, path_view(old(path)@)) {
            Ok(t) => r is Ok && final(out)@ == old(out)@ + t,
            Err(f) => r matches Err(e) && e@ == f,
        },
    decreases reg@.len() + 1 - path_view(old(path)@).len(), nodes_view(v@),
{
    let ghost w = nodes_view(v@);
    let ghost pv = path_view(path@);
    let ghost out0 = out@;
    let ghost produced = Seq::<char>::empty();
    proof {
        lemma_nodes_view_index(v@);
        assert(w.skip(0) =~= w);
    }
    let mut i: usize = 0;
    while i < v.len()
        invariant
            i <= v.len(),
            w == nodes_view(v@),
            w.len() == v.len(),
            forall|k: int| 0 <= k < v.len() ==> #[trigger] w[k] == node_view(v@[k]),
            pv == path_view(path@),
            pv == path_view(old(path)@),
            out@ == out0 + produced,
            eval(w, cfg@, reg@, cur@, pv) == join(
                Ok(produced),
                eval(w.skip(i as int), cfg@, reg@, cur@, pv),
            ),
        decreases v.len() - i,
    {
        let ghost rest = w.skip(i as int);
        assert(rest[0] == w[i as int]);
        assert(rest.drop_first() =~= w.skip(i + 1));
        let ghost before = out@;
        let ghost mut piece = Seq::<char>::empty();
        match &v[i] {
            Node::Literal(t) => {
                out.append(t.as_str());
                assert(rest[0] == NodeV::Lit(t@));
                proof {
                    piece = t@;
                    assert(eval(rest, cfg@, reg@, cur@, pv) == join(
                        Ok(piece),
                        eval(rest.drop_first(), cfg@, reg@, cur@, pv),
                    ));
                }
            },
            Node::Placeholder(x, c) => match cfg.get(x) {
                None => {
                    return Err(
                        RenderError::UndefinedVariable { template: cur.clone(), name: x.clone() },
                    );
                },
                Some(Value::Flag(_)) => {
                    return Err(
                        RenderError::TypeMismatch { template: cur.clone(), name: x.clone() },
                    );
                },
                Some(Value::Text(val)) => {
                    match c {
                        Case::Capitalized => {
                            let up = capitalized(val);
                            out.append(up.as_str());
                            assert(rest[0] == NodeV::Var(x@, *c));
                            proof {
                                piece = up@;
                                assert(eval(rest, cfg@, reg@, cur@, pv) == join(
                                    Ok(piece),
                                    eval(rest.drop_first(), cfg@, reg@, cur@, pv),
                                ));
                            }
                        },
                        Case::AsIs => {
                            out.append(val.as_str());
                            assert(rest[0] == NodeV::Var(x@, *c));
                            proof {
                                piece = val@;
                                assert(eval(rest, cfg@, reg@, cur@, pv) == join(
                                    Ok(piece),
                                    eval(rest.drop_first(), cfg@, reg@, cur@, pv),
                                ));
                            }
                        },
                    }
                },
            },
            Node::Conditional(x, a, b) => match cfg.get(x) {
                None => {
                    return Err(
                        RenderError::UndefinedVariable { template: cur.clone(), name: x.clone() },
                    );
                },
                Some(Value::Text(_)) => {
                    return Err(
                        RenderError::TypeMismatch { template: cur.clone(), name: x.clone() },
                    );
                },
                Some(Value::Flag(f)) => {
                    let branch = if *f { a } else { b };
                    assert(decreases_to!(w => w[i as int]));
                    assert(rest[0] == NodeV::Cond(x@, nodes_view(a@), nodes_view(b@)));
                    match eval_into(branch, cfg, reg, cur, path, out) {
                        Ok(()) => {
                            let ghost t = eval(nodes_view(branch@), cfg@, reg@, cur@, pv)->Ok_0;
                            assert(out@ =~= before + t);
                            proof {
                                piece = t;
                                assert(eval(rest, cfg@, reg@, cur@, pv) == join(
                                    Ok(piece),
                                    eval(rest.drop_first(), cfg@, reg@, cur@, pv),
                                ));
                            }
                        },
                        Err(e) => {
                            return Err(e);
                        },
                    }
                },
            },
            Node::Embed(n) => match reg.source(n) {
                None => {
                    return Err(
                        RenderError::UnknownTemplate { template: cur.clone(), name: n.clone() },
                    );
                },
                Some(text) => {
                    if on_path(path, n) || path.len() > reg.len() {
                        return Err(
                        RenderError::CyclicInclusion { template: cur.clone(), name: n.clone() },
                    );
                    }
                    match parse(text.as_str()) {
                        Err(e) => {
                            return Err(RenderError::Syntax { template: n.clone(), error: e });
                        },
                        Ok(ms) => {
                            path.push(n.clone());
                            assert(path_view(path@) =~= pv.push(n@));
                            let r = eval_into(&ms, cfg, reg, n, path, out);
                            let ghost p1 = path@;
                            path.pop();
                            assert(path_view(path@) =~= pv) by {
                                assert(path@ =~= p1.drop_last());
                                assert forall|k: int| 0 <= k < path@.len() implies path_view(
                                    path@,
                                )[k] == pv[k] by {
                                    assert(path_view(p1)[k] == path@[k]@);
                                }
                            }
                            match r {
                                Ok(()) => {
                                    assert(rest[0] == NodeV::Embed(n@));
                                    let ghost t = eval(
                                        nodes_view(ms@),
                                        cfg@,
                                        reg@,
                                        n@,
                                        pv.push(n@),
                                    )->Ok_0;
                                    assert(out@ =~= before + t);
                                    proof {
                                        piece = t;
                                        assert(eval(rest, cfg@, reg@, cur@, pv) == join(
                                            Ok(piece),
                                            eval(rest.drop_first(), cfg@, reg@, cur@, pv),
                                        ));
                                    }
                                },
                                Err(e) => {
                                    return Err(e);
                                },
                            }
                        },
                    }
                },
            },
        }
        proof {
            assert(out@ =~= before + piece);
            lemma_join_assoc(produced, Ok(piece), eval(w.skip(i + 1), cfg@, reg@, cur@, pv));
            produced = produced + piece;
            assert(out@ =~= out0 + produced);
        }
        i = i + 1;
    }
    proof {
        assert(w.skip(i as int).len() == 0);
        assert(produced + Seq::<char>::empty() =~= produced);
    }
    Ok(())
}

/// Renders the parsed nodes of the template named `template`.
pub fn evaluate(nodes: &Vec<Node>, template: &str, cfg: &Configuration, reg: &Registry) -> (r:
    Result<String, RenderError>)
    ensures
        match eval(nodes_view(nodes@), cfg@, reg@, template@, seq![template@]) {
            Ok(t) => r matches Ok(s) && s@ == t,
            Err(f) => r matches Err(e) && e@ == f,
        },
{
    let cur = String::from_str(template);
    let mut path: Vec<String> = Vec::new();
    path.push(cur.clone());
    assert(path_view(path@) =~= seq![template@]);
    let mut out = String::new();
    match eval_into(nodes, cfg, reg, &cur, &mut path, &mut out) {
        Ok(()) => {
            assert(out@ =~= eval(nodes_view(nodes@), cfg@, reg@, template@, seq![template@])->Ok_0);
            Ok(out)
        },
        Err(e) => Err(e),
    }
}

/// Renders the template registered under `name`.
pub fn render_template(name: &str, cfg: &Configuration, reg: &Registry) -> (r: Result<
    String,
    RenderError,
>)
    ensures
        match render_spec(name@, cfg@, reg@) {
            Ok(t) => r matches Ok(s) && s@ == t,
            Err(f) => r matches Err(e) && e@ == f,
        },
{
    let key = String::from_str(name);
    match reg.source(&key) {
        None => Err(RenderError::UnknownTemplate { template: key.clone(), name: key }),
        Some(text) => match parse(text.as_str()) {
            Err(e) => Err(RenderError::Syntax { template: key, error: e }),
            Ok(nodes) => evaluate(&nodes, name, cfg, reg),
        },
    }
}

/// Renders each template named in `roots`, in order, pairing each name with
/// its text; fails with the first error met, and then yields no text at all.
pub fn render(roots: &Vec<String>, cfg: &Configuration, reg: &Registry) -> (r: Result<
    Vec<(String, String)>,
    RenderError,
>)
    ensures
        match r {
            Ok(out) => {
                &&& out.len() == roots.len()
                &&& forall|k: int|
                    0 <= k < roots.len() ==> {
                        &&& #[trigger] out@[k].0@ == roots@[k]@
                        &&& render_spec(roots@[k]@, cfg@, reg@) == Ok::<Seq<char>, Fault>(
                            out@[k].1@,
                        )
                    }
            },
            Err(e) => exists|j: int|
                0 <= j < roots.len() && (forall|k: int|
                    0 <= k < j ==> #[trigger] render_spec(roots@[k]@, cfg@, reg@) is Ok)
                    && render_spec(roots@[j]@, cfg@, reg@) == Err::<Seq<char>, Fault>(e@),
        },
{
    let mut out: Vec<(String, String)> = Vec::new();
    let mut i: usize = 0;
    while i < roots.len()
        invariant
            i <= roots.len(),
            out.len() == i,
            forall|k: int|
                0 <= k < i ==> {
                    &&& #[trigger] out@[k].0@ == roots@[k]@
                    &&& render_spec(roots@[k]@, cfg@, reg@) == Ok::<Seq<char>, Fault>(
                        out@[k].1@,
                    )
                },
        decreases roots.len() - i,
    {
        match render_template(roots[i].as_str(), cfg, reg) {
            Ok(t) => {
                let ghost before = out@;
                out.push((roots[i].clone(), t));
                assert forall|k: int| 0 <= k <= i implies #[trigger] out@[k].0@ == roots@[k]@
                    && render_spec(roots@[k]@, cfg@, reg@) == Ok::<Seq<char>, Fault>(
                    out@[k].1@,
                ) by {
                    if k < i {
                        assert(out@[k] == before[k]);
                    }
                }
            },
            Err(e) => {
                assert forall|k: int| 0 <= k < i implies #[trigger] render_spec(
                    roots@[k]@,
                    cfg@,
                    reg@,
                ) is Ok by {
                    assert(out@[k].0@ == roots@[k]@);
                }
                return Err(e);
            },
        }
        i = i + 1;
    }
    Ok(out)
}

} // verus!

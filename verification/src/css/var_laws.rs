//! What the substitution of `var()` references keeps: the facts proved here
//! speak of the definitions in `var`.

use vstd::prelude::*;

use super::text::trim;
use super::var::{
    available, forget_visited, is_custom_name, run_block, run_fallback, run_list, run_node,
    run_var, skip_space, spec_substitute, var_function_name, with_written, CssNode, Outcome,
    SubstState, VarValue, expansion_fuel,
};

verus! {

/// The text of tokens that hold no `var()`, as a substitution writes it:
/// each token's own text, and each block's contents followed by `)`.
/// `None` where a `var()` occurs or a block could not be entered.
pub open spec fn written_list(s: Seq<CssNode>) -> Option<Seq<char>>
    decreases s, 0int,
{
    if s.len() == 0 {
        Some(Seq::empty())
    } else {
        match (written_node(s[0]), written_list(s.subrange(1, s.len() as int))) {
            (Some(a), Some(b)) => Some(a + b),
            _ => None,
        }
    }
}

/// The text of one token that holds no `var()`; see `written_list`.
pub open spec fn written_node(n: CssNode) -> Option<Seq<char>>
    decreases n, 0int,
{
    match n {
        CssNode::Function(name, text, body) => {
            if name@ == var_function_name() {
                None
            } else {
                written_block(text@, body)
            }
        },
        CssNode::Paren(text, body) => written_block(text@, body),
        _ => Some(n.text()),
    }
}

/// The text of a block that holds no `var()`; see `written_list`.
pub open spec fn written_block(text: Seq<char>, body: Option<Vec<CssNode>>) -> Option<Seq<char>>
    decreases body, 0int,
{
    match body {
        Some(b) => match written_list(b@) {
            Some(w) => Some(text + w + seq![')']),
            None => None,
        },
        None => None,
    }
}

/// Whether a run over tokens without `var()` ended as it must: done, with
/// `w` written, nothing removed, and the properties under expansion kept
/// (or, at the outermost level, possibly forgotten).
pub open spec fn plain_run(
    res: (Outcome, SubstState),
    st: SubstState,
    w: Seq<char>,
    entrance: bool,
) -> bool {
    &&& res.0 is Done
    &&& res.1.out == st.out + w
    &&& res.1.removed == st.removed
    &&& (res.1.visited == st.visited || (entrance && res.1.visited == Set::<Seq<char>>::empty()))
}

proof fn lemma_plain_list(
    vars: Map<Seq<char>, VarValue>,
    fuel: nat,
    s: Seq<CssNode>,
    st: SubstState,
    entrance: bool,
)
    requires
        written_list(s) is Some,
    ensures
        plain_run(run_list(vars, fuel, s, st, entrance), st, written_list(s).unwrap(), entrance),
    decreases s, 0int,
{
    if s.len() > 0 {
        let a = written_node(s[0]).unwrap();
        let rest = s.subrange(1, s.len() as int);
        let b = written_list(rest).unwrap();
        lemma_plain_node(vars, fuel, s[0], st, entrance);
        let (r1, st1) = run_node(vars, fuel, s[0], st, entrance);
        let st2 = if entrance {
            forget_visited(st1)
        } else {
            st1
        };
        lemma_plain_list(vars, fuel, rest, st2, entrance);
        assert(st.out + a + b =~= st.out + (a + b));
    } else {
        assert(st.out + Seq::<char>::empty() =~= st.out);
    }
}

proof fn lemma_plain_node(
    vars: Map<Seq<char>, VarValue>,
    fuel: nat,
    n: CssNode,
    st: SubstState,
    entrance: bool,
)
    requires
        written_node(n) is Some,
    ensures
        plain_run(run_node(vars, fuel, n, st, entrance), st, written_node(n).unwrap(), entrance),
    decreases n, 0int,
{
    match n {
        CssNode::Function(name, text, body) => {
            lemma_plain_block(vars, fuel, text@, body, st, entrance);
        },
        CssNode::Paren(text, body) => {
            lemma_plain_block(vars, fuel, text@, body, st, entrance);
        },
        _ => {},
    }
}

proof fn lemma_plain_block(
    vars: Map<Seq<char>, VarValue>,
    fuel: nat,
    text: Seq<char>,
    body: Option<Vec<CssNode>>,
    st: SubstState,
    entrance: bool,
)
    requires
        written_block(text, body) is Some,
    ensures
        plain_run(run_block(vars, fuel, text, body, st, entrance), st, written_block(text, body).unwrap(), entrance),
    decreases body, 0int,
{
    match body {
        Some(b) => {
            let w = written_list(b@).unwrap();
            lemma_plain_list(vars, fuel, b@, with_written(st, text), entrance);
            assert(st.out + text + w + seq![')'] =~= st.out + (text + w + seq![')']));
        },
        None => {},
    }
}


/// A substitution never adds a property and never changes a value: the
/// table it leaves is the table it was given, less some properties.
pub proof fn law_substitution_only_removes(vars: Map<Seq<char>, VarValue>, nodes: Seq<CssNode>)
    ensures
        spec_substitute(vars, nodes).1.dom().subset_of(vars.dom()),
        forall|k: Seq<char>|
            spec_substitute(vars, nodes).1.dom().contains(k) ==> #[trigger] spec_substitute(vars, nodes).1[k]
                == vars[k],
{
}

/// What is set is read back: after a property is set, its value is the text
/// it was set to; after it is removed, it is undefined.
pub proof fn law_set_then_read(
    vars: Map<Seq<char>, VarValue>,
    name: Seq<char>,
    value: Seq<char>,
    tokens: Seq<CssNode>,
)
    ensures
        vars.insert(name, (value, tokens)).dom().contains(name),
        vars.insert(name, (value, tokens))[name].0 == value,
        !vars.remove(name).dom().contains(name),
{
}

/// Allowing more nested expansions changes nothing in a substitution that
/// did not run out of them: the limit only refuses substitutions that would
/// otherwise not end.
pub proof fn law_expansion_limit(
    vars: Map<Seq<char>, VarValue>,
    f: nat,
    g: nat,
    s: Seq<CssNode>,
    st: SubstState,
    entrance: bool,
)
    requires
        f <= g,
        !(run_list(vars, f, s, st, entrance).0 is Exhausted),
    ensures
        run_list(vars, g, s, st, entrance) == run_list(vars, f, s, st, entrance),
    decreases f, s, 0int,
{
    if s.len() > 0 {
        let (r1, st1) = run_node(vars, f, s[0], st, entrance);
        lemma_fuel_node(vars, f, g, s[0], st, entrance);
        if r1 is Done {
            let st2 = if entrance {
                forget_visited(st1)
            } else {
                st1
            };
            law_expansion_limit(vars, f, g, s.subrange(1, s.len() as int), st2, entrance);
        }
    }
}

proof fn lemma_fuel_node(
    vars: Map<Seq<char>, VarValue>,
    f: nat,
    g: nat,
    n: CssNode,
    st: SubstState,
    entrance: bool,
)
    requires
        f <= g,
        !(run_node(vars, f, n, st, entrance).0 is Exhausted),
    ensures
        run_node(vars, g, n, st, entrance) == run_node(vars, f, n, st, entrance),
    decreases f, n, 0int,
{
    match n {
        CssNode::Function(name, text, body) => {
            if name@ == var_function_name() {
                match body {
                    Some(b) => lemma_fuel_var(vars, f, g, b@, st),
                    None => {},
                }
            } else {
                lemma_fuel_block(vars, f, g, text@, body, st, entrance);
            }
        },
        CssNode::Paren(text, body) => lemma_fuel_block(vars, f, g, text@, body, st, entrance),
        _ => {},
    }
}

proof fn lemma_fuel_block(
    vars: Map<Seq<char>, VarValue>,
    f: nat,
    g: nat,
    text: Seq<char>,
    body: Option<Vec<CssNode>>,
    st: SubstState,
    entrance: bool,
)
    requires
        f <= g,
        !(run_block(vars, f, text, body, st, entrance).0 is Exhausted),
    ensures
        run_block(vars, g, text, body, st, entrance) == run_block(vars, f, text, body, st, entrance),
    decreases f, body, 0int,
{
    match body {
        Some(b) => law_expansion_limit(vars, f, g, b@, with_written(st, text), entrance),
        None => {},
    }
}

proof fn lemma_fuel_var(vars: Map<Seq<char>, VarValue>, f: nat, g: nat, s: Seq<CssNode>, st: SubstState)
    requires
        f <= g,
        !(run_var(vars, f, s, st).0 is Exhausted),
    ensures
        run_var(vars, g, s, st) == run_var(vars, f, s, st),
    decreases f, s, 1int,
{
    let i = skip_space(s, 0);
    if i < s.len() && s[i] is Ident {
        let name = s[i]->Ident_0@;
        if is_custom_name(name) {
            if available(vars, st, name) {
                if !st.visited.contains(name) && f > 0 {
                    let st1 = SubstState { visited: st.visited.insert(name), ..st };
                    let (r, st2) = run_list(vars, (f - 1) as nat, vars[name].1, st1, false);
                    if !(r is Exhausted) {
                        law_expansion_limit(vars, (f - 1) as nat, (g - 1) as nat, vars[name].1, st1, false);
                        match r {
                            Outcome::Cycle(head, _) => {
                                let st3 = SubstState { removed: st2.removed.insert(name), ..st2 };
                                if head == name {
                                    lemma_fuel_fallback(vars, f, g, s, i + 1, st3);
                                }
                            },
                            Outcome::Invalid => lemma_fuel_fallback(vars, f, g, s, i + 1, st2),
                            _ => {},
                        }
                    }
                }
            } else {
                lemma_fuel_fallback(vars, f, g, s, i + 1, st);
            }
        }
    }
}

proof fn lemma_fuel_fallback(
    vars: Map<Seq<char>, VarValue>,
    f: nat,
    g: nat,
    s: Seq<CssNode>,
    i: int,
    st: SubstState,
)
    requires
        f <= g,
        !(run_fallback(vars, f, s, i, st).0 is Exhausted),
    ensures
        run_fallback(vars, g, s, i, st) == run_fallback(vars, f, s, i, st),
    decreases f, s, 0int,
{
    let j = skip_space(s, i);
    if 0 <= j < s.len() && s[j] is Comma {
        law_expansion_limit(vars, f, g, s.subrange(j + 1, s.len() as int), forget_visited(st), true);
    }
}

/// The state a substitution starts from.
pub open spec fn initial_state() -> SubstState {
    SubstState { out: Seq::empty(), visited: Set::empty(), removed: Set::empty() }
}

/// The argument tokens of `n`, where `n` is `var(...)`.
pub open spec fn var_arguments(n: CssNode) -> Option<Seq<CssNode>> {
    match n {
        CssNode::Function(f, _, Some(args)) => {
            if f@ == var_function_name() {
                Some(args@)
            } else {
                None
            }
        },
        _ => None,
    }
}

/// The identifier that the arguments of a `var()` start with.
pub open spec fn named_property(args: Seq<CssNode>) -> Option<Seq<char>> {
    let i = skip_space(args, 0);
    if i < args.len() && args[i] is Ident {
        Some(args[i]->Ident_0@)
    } else {
        None
    }
}

/// The fallback tokens of a `var()`: those after the comma that follows the
/// name.
pub open spec fn fallback_tokens(args: Seq<CssNode>) -> Option<Seq<CssNode>> {
    let i = skip_space(args, 0);
    let j = skip_space(args, i + 1);
    if named_property(args) is Some && 0 <= j < args.len() && args[j] is Comma {
        Some(args.subrange(j + 1, args.len() as int))
    } else {
        None
    }
}

/// `var(--name ...)` of a defined property whose value holds no `var()`
/// gives the value's text; what follows the name is not used, and the table
/// is left as it was.
pub proof fn law_defined_var_gives_its_value(
    vars: Map<Seq<char>, VarValue>,
    nodes: Seq<CssNode>,
    name: Seq<char>,
)
    requires
        nodes.len() == 1,
        var_arguments(nodes[0]) matches Some(args) && named_property(args) == Some(name),
        is_custom_name(name),
        vars.dom().contains(name),
        written_list(vars[name].1) is Some,
    ensures
        spec_substitute(vars, nodes) == (Some(trim(written_list(vars[name].1).unwrap())), vars),
{
    let fuel = expansion_fuel(vars.dom().len());
    let args = var_arguments(nodes[0]).unwrap();
    let st0 = initial_state();
    let st1 = SubstState { visited: st0.visited.insert(name), ..st0 };
    lemma_plain_list(vars, (fuel - 1) as nat, vars[name].1, st1, false);
    let w = written_list(vars[name].1).unwrap();
    let inner = run_list(vars, (fuel - 1) as nat, vars[name].1, st1, false);
    assert(run_node(vars, fuel, nodes[0], st0, true) == run_var(vars, fuel, args, st0));
    assert(run_var(vars, fuel, args, st0) == (Outcome::Done, inner.1));
    let rest = nodes.subrange(1, nodes.len() as int);
    assert(rest.len() == 0);
    assert(run_list(vars, fuel, rest, forget_visited(inner.1), true) == (Outcome::Done, forget_visited(inner.1)));
    assert(run_list(vars, fuel, nodes, st0, true) == (Outcome::Done, forget_visited(inner.1)));
    assert(Seq::<char>::empty() + w =~= w);
    assert(vars.remove_keys(Set::empty()) =~= vars);
}

/// `var(--name, fallback)` of an undefined property gives the text of the
/// fallback, where the fallback holds no `var()`.
pub proof fn law_undefined_var_gives_fallback(
    vars: Map<Seq<char>, VarValue>,
    nodes: Seq<CssNode>,
    name: Seq<char>,
)
    requires
        nodes.len() == 1,
        var_arguments(nodes[0]) matches Some(args) && named_property(args) == Some(name),
        fallback_tokens(var_arguments(nodes[0]).unwrap()) matches Some(fb) && written_list(fb) is Some,
        is_custom_name(name),
        !vars.dom().contains(name),
    ensures
        spec_substitute(vars, nodes) == (
            Some(trim(written_list(fallback_tokens(var_arguments(nodes[0]).unwrap()).unwrap()).unwrap())),
            vars,
        ),
{
    let fuel = expansion_fuel(vars.dom().len());
    let args = var_arguments(nodes[0]).unwrap();
    let fallback = fallback_tokens(args).unwrap();
    let st0 = initial_state();
    let i = skip_space(args, 0);
    lemma_skip_space_bounds(args, i + 1);
    lemma_plain_list(vars, fuel, fallback, forget_visited(st0), true);
    let w = written_list(fallback).unwrap();
    let fb = run_list(vars, fuel, fallback, forget_visited(st0), true);
    assert(run_fallback(vars, fuel, args, i + 1, st0) == fb);
    assert(run_node(vars, fuel, nodes[0], st0, true) == run_var(vars, fuel, args, st0));
    assert(run_var(vars, fuel, args, st0) == fb);
    let rest = nodes.subrange(1, nodes.len() as int);
    assert(rest.len() == 0);
    assert(run_list(vars, fuel, rest, forget_visited(fb.1), true) == (Outcome::Done, forget_visited(fb.1)));
    assert(run_list(vars, fuel, nodes, st0, true) == (Outcome::Done, forget_visited(fb.1)));
    assert(Seq::<char>::empty() + w =~= w);
    assert(vars.remove_keys(Set::empty()) =~= vars);
}

/// `skip_space` never goes back.
proof fn lemma_skip_space_bounds(s: Seq<CssNode>, i: int)
    ensures
        skip_space(s, i) >= i,
    decreases s.len() - i,
{
    if 0 <= i < s.len() && s[i] is WhiteSpace {
        lemma_skip_space_bounds(s, i + 1);
    }
}

/// A property whose value refers straight back to itself (`var(--name ...)`)
/// forms a cycle: it is removed from the table, and `var(--name, fallback)`
/// gives the text of the fallback, where the fallback holds no `var()`.
pub proof fn law_self_reference_falls_back(
    vars: Map<Seq<char>, VarValue>,
    nodes: Seq<CssNode>,
    name: Seq<char>,
)
    requires
        nodes.len() == 1,
        var_arguments(nodes[0]) matches Some(args) && named_property(args) == Some(name),
        fallback_tokens(var_arguments(nodes[0]).unwrap()) matches Some(fb) && written_list(fb) is Some,
        is_custom_name(name),
        vars.dom().contains(name),
        vars[name].1.len() > 0,
        var_arguments(vars[name].1[0]) matches Some(args) && named_property(args) == Some(name),
    ensures
        spec_substitute(vars, nodes) == (
            Some(trim(written_list(fallback_tokens(var_arguments(nodes[0]).unwrap()).unwrap()).unwrap())),
            vars.remove(name),
        ),
{
    let fuel = expansion_fuel(vars.dom().len());
    let args = var_arguments(nodes[0]).unwrap();
    let fallback = fallback_tokens(args).unwrap();
    let st0 = initial_state();
    let st1 = SubstState { visited: st0.visited.insert(name), ..st0 };
    let t = vars[name].1;
    let inner_args = var_arguments(t[0]).unwrap();
    assert(run_node(vars, (fuel - 1) as nat, t[0], st1, false) == run_var(vars, (fuel - 1) as nat, inner_args, st1));
    let inner = run_var(vars, (fuel - 1) as nat, inner_args, st1);
    assert(inner == (Outcome::Cycle(name, false), SubstState { removed: st1.removed.insert(name), ..st1 }));
    assert(run_list(vars, (fuel - 1) as nat, t, st1, false) == inner);
    let st3 = SubstState { removed: inner.1.removed.insert(name), ..inner.1 };
    let i = skip_space(args, 0);
    lemma_skip_space_bounds(args, i + 1);
    lemma_plain_list(vars, fuel, fallback, forget_visited(st3), true);
    let w = written_list(fallback).unwrap();
    let fb = run_list(vars, fuel, fallback, forget_visited(st3), true);
    assert(run_fallback(vars, fuel, args, i + 1, st3) == fb);
    assert(run_node(vars, fuel, nodes[0], st0, true) == run_var(vars, fuel, args, st0));
    assert(run_var(vars, fuel, args, st0) == fb);
    let rest = nodes.subrange(1, nodes.len() as int);
    assert(rest.len() == 0);
    assert(run_list(vars, fuel, rest, forget_visited(fb.1), true) == (Outcome::Done, forget_visited(fb.1)));
    assert(run_list(vars, fuel, nodes, st0, true) == (Outcome::Done, forget_visited(fb.1)));
    assert(Seq::<char>::empty() + w =~= w);
    assert(vars.remove_keys(Set::empty().insert(name)) =~= vars.remove(name));
}

} // verus!

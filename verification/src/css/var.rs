//! Substitution of `var(--name, fallback)` references by the values of custom
//! properties.
//!
//! An expression is first read into a tree of tokens (`CssNode`) by the
//! `cssparser` tokenizer; the substitution then works on that tree. Every
//! custom property keeps its value together with the value's tokens, so a
//! reference is expanded by substituting in the tokens of the value.
//!
//! When a reference is found again while its own value is being expanded, the
//! property is removed from the table and the expansion fails with a cycle
//! error, which the `var()` that started the cycle answers with its fallback.

use cssparser::{Parser, ToCss, Token};
use vstd::prelude::*;

use super::text::{push_str, str_chars, str_eq, string_push, trim, trim_string};

verus! {

/// A token of an expression, with the contents of the blocks it opens.
///
/// Each token carries its own CSS text (`text`), as the tokenizer writes it
/// back.
#[derive(Debug)]
pub enum CssNode {
    /// A function token: its name, its text (the name and `(`), and the
    /// tokens of its arguments; `None` where the block could not be entered.
    Function(String, String, Option<Vec<CssNode>>),
    /// A `(` block: its text and its contents; `None` where the block could
    /// not be entered.
    Paren(String, Option<Vec<CssNode>>),
    /// An identifier: its value and its text.
    Ident(String, String),
    /// A comma.
    Comma(String),
    /// White space.
    WhiteSpace(String),
    /// Any other token.
    Other(String),
}

impl CssNode {
    /// The CSS text of the token itself.
    pub open spec fn text(self) -> Seq<char> {
        match self {
            CssNode::Function(_, t, _) => t@,
            CssNode::Paren(t, _) => t@,
            CssNode::Ident(_, t) => t@,
            CssNode::Comma(t) => t@,
            CssNode::WhiteSpace(t) => t@,
            CssNode::Other(t) => t@,
        }
    }
}

/// The value of a custom property: its text and its tokens.
pub type VarValue = (Seq<char>, Seq<CssNode>);

/// How a substitution ended.
pub enum Outcome {
    /// Every token was substituted.
    Done,
    /// The expansion of the named property reached the property again;
    /// the flag tells whether a fallback may still be used.
    Cycle(Seq<char>, bool),
    /// A `var()` was malformed, named no usable property and had no
    /// fallback, or a block could not be entered.
    Invalid,
    /// More nested expansions were needed than the limit allows.
    Exhausted,
}

/// The state that a substitution carries along: the text written so far,
/// the properties whose expansion is under way, and the properties removed
/// because they were found in a cycle.
pub struct SubstState {
    pub out: Seq<char>,
    pub visited: Set<Seq<char>>,
    pub removed: Set<Seq<char>>,
}

/// The name of the substitution function.
pub open spec fn var_function_name() -> Seq<char> {
    seq!['v', 'a', 'r']
}

/// A custom property name: `--` followed by at least one char.
pub open spec fn is_custom_name(name: Seq<char>) -> bool {
    name.len() > 2 && name[0] == '-' && name[1] == '-'
}

/// The index of the first token at or after `i` that is not white space.
pub open spec fn skip_space(s: Seq<CssNode>, i: int) -> int
    decreases s.len() - i,
{
    if 0 <= i < s.len() && s[i] is WhiteSpace {
        skip_space(s, i + 1)
    } else {
        i
    }
}

/// Whether `name` names a property that can be expanded.
pub open spec fn available(vars: Map<Seq<char>, VarValue>, st: SubstState, name: Seq<char>) -> bool {
    vars.dom().contains(name) && !st.removed.contains(name)
}

/// `st` with `text` written.
pub open spec fn with_written(st: SubstState, text: Seq<char>) -> SubstState {
    SubstState { out: st.out + text, ..st }
}

/// `st` with no property under expansion.
pub open spec fn forget_visited(st: SubstState) -> SubstState {
    SubstState { visited: Set::empty(), ..st }
}

/// Substitutes the tokens `s` in order; stops at the first failure. At the
/// outermost level (`entrance`), the properties under expansion are
/// forgotten after each token.
pub open spec fn run_list(
    vars: Map<Seq<char>, VarValue>,
    fuel: nat,
    s: Seq<CssNode>,
    st: SubstState,
    entrance: bool,
) -> (Outcome, SubstState)
    decreases fuel, s, 0int,
{
    if s.len() == 0 {
        (Outcome::Done, st)
    } else {
        let (r, st1) = run_node(vars, fuel, s[0], st, entrance);
        if r is Done {
            let st2 = if entrance {
                forget_visited(st1)
            } else {
                st1
            };
            run_list(vars, fuel, s.subrange(1, s.len() as int), st2, entrance)
        } else {
            (r, st1)
        }
    }
}

/// Substitutes one token: a `var()` is expanded, another block is written
/// with its contents substituted, any other token is written as it is.
pub open spec fn run_node(
    vars: Map<Seq<char>, VarValue>,
    fuel: nat,
    n: CssNode,
    st: SubstState,
    entrance: bool,
) -> (Outcome, SubstState)
    decreases fuel, n, 0int,
{
    match n {
        CssNode::Function(name, text, body) => {
            if name@ == var_function_name() {
                match body {
                    Some(b) => run_var(vars, fuel, b@, st),
                    None => (Outcome::Invalid, st),
                }
            } else {
                run_block(vars, fuel, text@, body, st, entrance)
            }
        },
        CssNode::Paren(text, body) => run_block(vars, fuel, text@, body, st, entrance),
        _ => (Outcome::Done, with_written(st, n.text())),
    }
}

/// Writes the opening text of a block, substitutes its contents and closes
/// it with `)`.
pub open spec fn run_block(
    vars: Map<Seq<char>, VarValue>,
    fuel: nat,
    text: Seq<char>,
    body: Option<Vec<CssNode>>,
    st: SubstState,
    entrance: bool,
) -> (Outcome, SubstState)
    decreases fuel, body, 0int,
{
    match body {
        Some(b) => {
            let (r, st1) = run_list(vars, fuel, b@, with_written(st, text), entrance);
            if r is Done {
                (Outcome::Done, with_written(st1, seq![')']))
            } else {
                (r, st1)
            }
        },
        None => (Outcome::Invalid, with_written(st, text)),
    }
}

/// Expands `var(...)` with the argument tokens `s`: the first token that is
/// not white space names a custom property. A property that can be expanded
/// is replaced by its substituted value; where it cannot, or where its
/// expansion fails in a way that allows it, the tokens after the following
/// comma are substituted instead.
pub open spec fn run_var(
    vars: Map<Seq<char>, VarValue>,
    fuel: nat,
    s: Seq<CssNode>,
    st: SubstState,
) -> (Outcome, SubstState)
    decreases fuel, s, 1int,
{
    let i = skip_space(s, 0);
    if i < s.len() && s[i] is Ident {
        let name = s[i]->Ident_0@;
        if !is_custom_name(name) {
            (Outcome::Invalid, st)
        } else if available(vars, st, name) {
            if st.visited.contains(name) {
                (Outcome::Cycle(name, false), SubstState { removed: st.removed.insert(name), ..st })
            } else if fuel == 0 {
                (Outcome::Exhausted, st)
            } else {
                let st1 = SubstState { visited: st.visited.insert(name), ..st };
                let (r, st2) = run_list(vars, (fuel - 1) as nat, vars[name].1, st1, false);
                match r {
                    Outcome::Done => (Outcome::Done, st2),
                    Outcome::Exhausted => (Outcome::Exhausted, st2),
                    Outcome::Cycle(head, _) => {
                        let st3 = SubstState { removed: st2.removed.insert(name), ..st2 };
                        if head == name {
                            run_fallback(vars, fuel, s, i + 1, st3)
                        } else {
                            (Outcome::Cycle(head, false), st3)
                        }
                    },
                    Outcome::Invalid => run_fallback(vars, fuel, s, i + 1, st2),
                }
            }
        } else {
            run_fallback(vars, fuel, s, i + 1, st)
        }
    } else {
        (Outcome::Invalid, st)
    }
}

/// The fallback of `var(...)`: after the name (at index `i`), a comma must
/// follow; the tokens after it are substituted as at the outermost level.
pub open spec fn run_fallback(
    vars: Map<Seq<char>, VarValue>,
    fuel: nat,
    s: Seq<CssNode>,
    i: int,
    st: SubstState,
) -> (Outcome, SubstState)
    decreases fuel, s, 0int,
{
    let st1 = forget_visited(st);
    let j = skip_space(s, i);
    if 0 <= j < s.len() && s[j] is Comma {
        run_list(vars, fuel, s.subrange(j + 1, s.len() as int), st1, true)
    } else {
        (Outcome::Invalid, st1)
    }
}


/// A set of property names, kept in a `hashbrown` set.
#[verifier::external_body]
pub struct NameSet {
    names: hashbrown::HashSet<String>,
}

/// What a `NameSet` holds.
pub uninterp spec fn name_set_contents(s: NameSet) -> Set<Seq<char>>;

impl View for NameSet {
    type V = Set<Seq<char>>;

    closed spec fn view(&self) -> Set<Seq<char>> {
        name_set_contents(*self)
    }
}

impl NameSet {
    /// An empty set (`HashSet::new`).
    #[verifier::external_body]
    fn new() -> (r: Self)
        ensures
            name_set_contents(r) == Set::<Seq<char>>::empty(),
    {
        NameSet { names: hashbrown::HashSet::new() }
    }

    /// Whether `name` is in the set (`HashSet::contains`).
    #[verifier::external_body]
    fn contains(&self, name: &str) -> (r: bool)
        ensures
            r == name_set_contents(*self).contains(name@),
    {
        self.names.contains(name)
    }

    /// Adds `name` (`HashSet::insert`).
    #[verifier::external_body]
    fn insert(&mut self, name: &str)
        ensures
            name_set_contents(*final(self)) == name_set_contents(*old(self)).insert(name@),
    {
        self.names.insert(name.to_string());
    }

    /// Removes every name (`HashSet::clear`).
    #[verifier::external_body]
    fn clear(&mut self)
        ensures
            name_set_contents(*final(self)) == Set::<Seq<char>>::empty(),
    {
        self.names.clear()
    }

    /// The names, each once, in the set's own order (`HashSet::iter`); that
    /// order depends on the hasher and is not stated.
    #[verifier::external_body]
    fn names(&self) -> (r: Vec<String>)
        ensures
            forall|k: Seq<char>| name_set_contents(*self).contains(k) <==> exists|i: int| 0 <= i < r@.len() && (#[trigger] r@[i])@ == k,
    {
        self.names.iter().cloned().collect()
    }
}

/// A custom property: its name, its value, and the tokens of the value.
pub struct CustomProperty {
    name: String,
    value: String,
    tokens: Vec<CssNode>,
}

/// The table that a substitution takes custom property values from.
pub struct CustomPropertyContext {
    entries: Vec<CustomProperty>,
}

/// Whether no two entries have the same name.
spec fn names_distinct(s: Seq<CustomProperty>) -> bool {
    forall|i: int, j: int| 0 <= i < s.len() && 0 <= j < s.len() && i != j ==> s[i].name@ != s[j].name@
}

/// The map from names to values that the entries `s` hold.
spec fn entries_map(s: Seq<CustomProperty>) -> Map<Seq<char>, VarValue>
    decreases s.len(),
{
    if s.len() == 0 {
        Map::empty()
    } else {
        entries_map(s.drop_last()).insert(s.last().name@, (s.last().value@, s.last().tokens@))
    }
}

/// A name is in the map exactly when some entry has it.
proof fn lemma_entries_map_dom(s: Seq<CustomProperty>, k: Seq<char>)
    ensures
        entries_map(s).dom().contains(k) <==> exists|i: int| 0 <= i < s.len() && s[i].name@ == k,
    decreases s.len(),
{
    if s.len() > 0 {
        lemma_entries_map_dom(s.drop_last(), k);
        if entries_map(s).dom().contains(k) && k != s.last().name@ {
            let i = choose|i: int| 0 <= i < s.drop_last().len() && s.drop_last()[i].name@ == k;
            assert(s[i] == s.drop_last()[i]);
        }
        if exists|i: int| 0 <= i < s.len() && s[i].name@ == k {
            let i = choose|i: int| 0 <= i < s.len() && s[i].name@ == k;
            if i < s.len() - 1 {
                assert(s.drop_last()[i] == s[i]);
            }
        }
    }
}

/// With distinct names, the map has one key per entry.
proof fn lemma_entries_map_len(s: Seq<CustomProperty>)
    requires
        names_distinct(s),
    ensures
        entries_map(s).dom().finite(),
        entries_map(s).dom().len() == s.len(),
    decreases s.len(),
{
    if s.len() > 0 {
        let t = s.drop_last();
        assert(names_distinct(t)) by {
            assert forall|i: int, j: int| 0 <= i < t.len() && 0 <= j < t.len() && i != j implies t[i].name@ != t[j].name@ by {
                assert(t[i] == s[i] && t[j] == s[j]);
            }
        }
        lemma_entries_map_len(t);
        lemma_entries_map_dom(t, s.last().name@);
        if entries_map(t).dom().contains(s.last().name@) {
            let i = choose|i: int| 0 <= i < t.len() && t[i].name@ == s.last().name@;
            assert(t[i] == s[i]);
            assert(false);
        }
    }
}

/// With distinct names, the map gives each entry's value under its name.
proof fn lemma_entries_map_get(s: Seq<CustomProperty>, i: int)
    requires
        names_distinct(s),
        0 <= i < s.len(),
    ensures
        entries_map(s).dom().contains(s[i].name@),
        entries_map(s)[s[i].name@] == (s[i].value@, s[i].tokens@),
    decreases s.len(),
{
    if i < s.len() - 1 {
        assert(s.drop_last()[i] == s[i]);
        lemma_entries_map_get(s.drop_last(), i);
        assert(s.last().name@ != s[i].name@);
    }
}

/// Removing an entry removes its name from the map.
proof fn lemma_entries_map_remove(s: Seq<CustomProperty>, i: int)
    requires
        names_distinct(s),
        0 <= i < s.len(),
    ensures
        entries_map(s.remove(i)) =~= entries_map(s).remove(s[i].name@),
    decreases s.len(),
{
    let k = s[i].name@;
    if i == s.len() - 1 {
        assert(s.remove(i) =~= s.drop_last());
        lemma_entries_map_dom(s.drop_last(), k);
        assert(!entries_map(s.drop_last()).dom().contains(k));
    } else {
        let t = s.drop_last();
        assert(s.remove(i).drop_last() =~= t.remove(i));
        assert(s.remove(i).last() == s.last());
        assert(t[i] == s[i]);
        lemma_entries_map_remove(t, i);
        assert(s.last().name@ != k);
    }
}

/// Replacing an entry by one of the same name sets the name's value.
proof fn lemma_entries_map_update(s: Seq<CustomProperty>, i: int, e: CustomProperty)
    requires
        names_distinct(s),
        0 <= i < s.len(),
        e.name@ == s[i].name@,
    ensures
        entries_map(s.update(i, e)) =~= entries_map(s).insert(e.name@, (e.value@, e.tokens@)),
    decreases s.len(),
{
    if i == s.len() - 1 {
        assert(s.update(i, e).drop_last() =~= s.drop_last());
    } else {
        let t = s.drop_last();
        assert(s.update(i, e).drop_last() =~= t.update(i, e));
        assert(t[i] == s[i]);
        lemma_entries_map_update(t, i, e);
        assert(s.last().name@ != e.name@);
    }
}

impl View for CustomPropertyContext {
    type V = Map<Seq<char>, VarValue>;

    closed spec fn view(&self) -> Map<Seq<char>, VarValue> {
        entries_map(self.entries@)
    }
}

impl CustomPropertyContext {
    #[verifier::type_invariant]
    spec fn inv(self) -> bool {
        names_distinct(self.entries@)
    }

    /// The number of properties.
    pub fn len(&self) -> (n: usize)
        ensures
            n == self@.dom().len(),
            self@.dom().finite(),
    {
        proof {
            use_type_invariant(self);
            lemma_entries_map_len(self.entries@);
        }
        self.entries.len()
    }

    /// An empty table.
    pub fn new() -> (r: Self)
        ensures
            r@ == Map::<Seq<char>, VarValue>::empty(),
    {
        CustomPropertyContext { entries: Vec::new() }
    }

    /// The index of the entry named `name`.
    fn find(&self, name: &str) -> (r: Option<usize>)
        ensures
            match r {
                Some(i) => i < self.entries@.len() && self.entries@[i as int].name@ == name@
                    && self@.dom().contains(name@) && self@[name@] == (
                    self.entries@[i as int].value@,
                    self.entries@[i as int].tokens@,
                ),
                None => !self@.dom().contains(name@),
            },
    {
        proof {
            use_type_invariant(self);
        }
        let mut i: usize = 0;
        while i < self.entries.len()
            invariant
                names_distinct(self.entries@),
                i <= self.entries@.len(),
                forall|j: int| 0 <= j < i ==> self.entries@[j].name@ != name@,
            decreases self.entries@.len() - i,
        {
            if str_eq(self.entries[i].name.as_str(), name) {
                proof {
                    lemma_entries_map_get(self.entries@, i as int);
                }
                return Some(i);
            }
            i = i + 1;
        }
        proof {
            lemma_entries_map_dom(self.entries@, name@);
        }
        None
    }

    /// The value of the property `name`, where it is defined.
    pub fn custom_property(&self, name: &str) -> (r: Option<String>)
        ensures
            match r {
                Some(v) => self@.dom().contains(name@) && v@ == self@[name@].0,
                None => !self@.dom().contains(name@),
            },
    {
        match self.find(name) {
            Some(i) => Some(self.entries[i].value.clone()),
            None => None,
        }
    }
}


impl CustomPropertyContext {
    /// Removes the properties named in `names`.
    fn remove_names(&mut self, names: &NameSet)
        ensures
            final(self)@ == old(self)@.remove_keys(names@),
    {
        let list = names.names();
        let mut i: usize = 0;
        while i < list.len()
            invariant
                i <= list@.len(),
                self@ == old(self)@.remove_keys(
                    Set::new(|k: Seq<char>| exists|j: int| 0 <= j < i && list@[j]@ == k),
                ),
            decreases list@.len() - i,
        {
            let ghost before = self@;
            let ghost done = Set::new(|k: Seq<char>| exists|j: int| 0 <= j < i && list@[j]@ == k);
            let ghost next = Set::new(|k: Seq<char>| exists|j: int| 0 <= j < i + 1 && list@[j]@ == k);
            let name = list[i].as_str();
            match self.find(name) {
                Some(k) => {
                    proof {
                        use_type_invariant(&*self);
                        lemma_entries_map_remove(self.entries@, k as int);
                        let t = self.entries@.remove(k as int);
                        assert forall|a: int, b: int| 0 <= a < t.len() && 0 <= b < t.len() && a != b implies t[a].name@ != t[b].name@ by {
                            let a0 = if a < k { a } else { a + 1 };
                            let b0 = if b < k { b } else { b + 1 };
                            assert(t[a] == self.entries@[a0]);
                            assert(t[b] == self.entries@[b0]);
                        }
                    }
                    let mut entries = Vec::new();
                    std::mem::swap(&mut entries, &mut self.entries);
                    entries.remove(k);
                    self.entries = entries;
                },
                None => {},
            }
            proof {
                assert(next =~= done.insert(list@[i as int]@));
                assert(self@ =~= old(self)@.remove_keys(next));
            }
            i = i + 1;
        }
        proof {
            assert(names@ =~= Set::new(|k: Seq<char>| exists|j: int| 0 <= j < i && list@[j]@ == k));
        }
    }
}

/// Why a substitution stopped; see `Outcome`.
#[derive(Debug)]
pub enum VarError {
    Cycle(String, bool),
    Invalid,
    Exhausted,
}

/// The outcome that a result stands for.
pub open spec fn outcome_of(r: Result<(), VarError>) -> Outcome {
    match r {
        Ok(()) => Outcome::Done,
        Err(VarError::Cycle(head, fallback)) => Outcome::Cycle(head@, fallback),
        Err(VarError::Invalid) => Outcome::Invalid,
        Err(VarError::Exhausted) => Outcome::Exhausted,
    }
}

/// The text written so far, the properties under expansion, and those
/// found in a cycle.
struct SubstWork {
    out: String,
    visited: NameSet,
    removed: NameSet,
}

impl SubstWork {
    spec fn state(&self) -> SubstState {
        SubstState { out: self.out@, visited: self.visited@, removed: self.removed@ }
    }
}

/// The index of the first token at or after `i` that is not white space.
fn skip_white_space(s: &Vec<CssNode>, i: usize) -> (j: usize)
    requires
        i <= s@.len(),
    ensures
        j == skip_space(s@, i as int),
        i <= j <= s@.len(),
{
    let mut j = i;
    while j < s.len() && matches!(s[j], CssNode::WhiteSpace(_))
        invariant
            i <= j <= s@.len(),
            skip_space(s@, i as int) == skip_space(s@, j as int),
        decreases s@.len() - j,
    {
        j = j + 1;
    }
    j
}

/// Whether a function name is `var`.
fn is_var_function(name: &String) -> (r: bool)
    ensures
        r == (name@ == var_function_name()),
{
    let v = str_chars(name.as_str());
    let r = v.len() == 3 && v[0] == 'v' && v[1] == 'a' && v[2] == 'r';
    assert(r ==> v@ =~= var_function_name());
    r
}

/// Whether `name` is `--` followed by at least one char.
fn is_custom_property_name(name: &String) -> (r: bool)
    ensures
        r == is_custom_name(name@),
{
    let v = str_chars(name.as_str());
    v.len() > 2 && v[0] == '-' && v[1] == '-'
}

/// Substitutes the tokens of `nodes` from `start` on.
fn parse_and_substitute_var(
    nodes: &Vec<CssNode>,
    start: usize,
    context: &CustomPropertyContext,
    fuel: usize,
    work: &mut SubstWork,
    is_entrance: bool,
) -> (r: Result<(), VarError>)
    requires
        start <= nodes@.len(),
    ensures
        (outcome_of(r), final(work).state()) == run_list(
            context@,
            fuel as nat,
            nodes@.subrange(start as int, nodes@.len() as int),
            old(work).state(),
            is_entrance,
        ),
    decreases fuel, nodes@.subrange(start as int, nodes@.len() as int), 0int,
{
    let ghost full = nodes@.subrange(start as int, nodes@.len() as int);
    let mut i = start;
    while i < nodes.len()
        invariant
            start <= i <= nodes@.len(),
            full == nodes@.subrange(start as int, nodes@.len() as int),
            run_list(context@, fuel as nat, full, old(work).state(), is_entrance) == run_list(
                context@,
                fuel as nat,
                nodes@.subrange(i as int, nodes@.len() as int),
                work.state(),
                is_entrance,
            ),
        decreases nodes@.len() - i,
    {
        let ghost rest = nodes@.subrange(i as int, nodes@.len() as int);
        assert(rest[0] == nodes@[i as int]);
        assert(full[i - start] == nodes@[i as int]);
        assert(rest.subrange(1, rest.len() as int) =~= nodes@.subrange(i + 1, nodes@.len() as int));
        let r = substitute_node(&nodes[i], context, fuel, work, is_entrance);
        if r.is_err() {
            return r;
        }
        if is_entrance {
            work.visited.clear();
        }
        i = i + 1;
    }
    Ok(())
}

/// Substitutes one token.
fn substitute_node(
    node: &CssNode,
    context: &CustomPropertyContext,
    fuel: usize,
    work: &mut SubstWork,
    is_entrance: bool,
) -> (r: Result<(), VarError>)
    ensures
        (outcome_of(r), final(work).state()) == run_node(context@, fuel as nat, *node, old(work).state(), is_entrance),
    decreases fuel, *node, 0int,
{
    match node {
        CssNode::Function(name, text, body) => {
            if is_var_function(name) {
                match body {
                    Some(b) => substitute_var(b, context, fuel, work),
                    None => Err(VarError::Invalid),
                }
            } else {
                substitute_block(text, body, context, fuel, work, is_entrance)
            }
        },
        CssNode::Paren(text, body) => substitute_block(text, body, context, fuel, work, is_entrance),
        CssNode::Ident(_, t) => {
            push_str(&mut work.out, t.as_str());
            Ok(())
        },
        CssNode::Comma(t) => {
            push_str(&mut work.out, t.as_str());
            Ok(())
        },
        CssNode::WhiteSpace(t) => {
            push_str(&mut work.out, t.as_str());
            Ok(())
        },
        CssNode::Other(t) => {
            push_str(&mut work.out, t.as_str());
            Ok(())
        },
    }
}

/// Writes a block's opening text, substitutes its contents, and closes it.
fn substitute_block(
    text: &String,
    body: &Option<Vec<CssNode>>,
    context: &CustomPropertyContext,
    fuel: usize,
    work: &mut SubstWork,
    is_entrance: bool,
) -> (r: Result<(), VarError>)
    ensures
        (outcome_of(r), final(work).state()) == run_block(
            context@,
            fuel as nat,
            text@,
            *body,
            old(work).state(),
            is_entrance,
        ),
    decreases fuel, *body, 0int,
{
    push_str(&mut work.out, text.as_str());
    match body {
        Some(b) => {
            assert(b@.subrange(0, b@.len() as int) =~= b@);
            let r = parse_and_substitute_var(b, 0, context, fuel, work, is_entrance);
            if r.is_ok() {
                let ghost st1 = work.state();
                string_push(&mut work.out, ')');
                assert(work.out@ =~= st1.out + seq![')']);
                assert(work.state() == with_written(st1, seq![')']));
            }
            r
        },
        None => Err(VarError::Invalid),
    }
}

/// Expands `var(...)` with the argument tokens `s`.
fn substitute_var(
    s: &Vec<CssNode>,
    context: &CustomPropertyContext,
    fuel: usize,
    work: &mut SubstWork,
) -> (r: Result<(), VarError>)
    ensures
        (outcome_of(r), final(work).state()) == run_var(context@, fuel as nat, s@, old(work).state()),
    decreases fuel, s@, 1int,
{
    let i = skip_white_space(s, 0);
    if i >= s.len() {
        return Err(VarError::Invalid);
    }
    let name = match &s[i] {
        CssNode::Ident(v, _) => v,
        _ => {
            return Err(VarError::Invalid);
        },
    };
    if !is_custom_property_name(name) {
        return Err(VarError::Invalid);
    }
    let found = context.find(name.as_str());
    let defined = match found {
        Some(_) => !work.removed.contains(name.as_str()),
        None => false,
    };
    if defined {
        let k = match found {
            Some(k) => k,
            None => 0,
        };
        if work.visited.contains(name.as_str()) {
            work.removed.insert(name.as_str());
            return Err(VarError::Cycle(copy_str(name.as_str()), false));
        }
        if fuel == 0 {
            return Err(VarError::Exhausted);
        }
        work.visited.insert(name.as_str());
        let tokens = &context.entries[k].tokens;
        assert(tokens@.subrange(0, tokens@.len() as int) =~= tokens@);
        let res = parse_and_substitute_var(tokens, 0, context, fuel - 1, work, false);
        match res {
            Ok(()) => {
                return Ok(());
            },
            Err(VarError::Exhausted) => {
                return Err(VarError::Exhausted);
            },
            Err(VarError::Cycle(head, _)) => {
                work.removed.insert(name.as_str());
                if !str_eq(head.as_str(), name.as_str()) {
                    return Err(VarError::Cycle(head, false));
                }
            },
            Err(VarError::Invalid) => {},
        }
    }
    substitute_fallback(s, i + 1, context, fuel, work)
}

/// Substitutes the fallback of `var(...)`: the tokens after the comma that
/// follows the name, which ends before index `i`.
fn substitute_fallback(
    s: &Vec<CssNode>,
    i: usize,
    context: &CustomPropertyContext,
    fuel: usize,
    work: &mut SubstWork,
) -> (r: Result<(), VarError>)
    requires
        1 <= i <= s@.len(),
    ensures
        (outcome_of(r), final(work).state()) == run_fallback(context@, fuel as nat, s@, i as int, old(work).state()),
    decreases fuel, s@, 0int,
{
    work.visited.clear();
    let j = skip_white_space(s, i);
    if j < s.len() && matches!(s[j], CssNode::Comma(_)) {
        parse_and_substitute_var(s, j + 1, context, fuel, work, true)
    } else {
        Err(VarError::Invalid)
    }
}


/// How many nested expansions one substitution may make beyond one per
/// property of the table. A substitution whose properties refer to each
/// other without end (through fallbacks, which forget the properties under
/// expansion) would never finish; such a substitution is refused once it
/// nests deeper than the table's size plus this margin.
pub const EXPANSION_LIMIT: usize = 256;

/// The nested expansions allowed with a table of `n` properties: `n` plus
/// `EXPANSION_LIMIT`, as far as a `usize` holds.
pub open spec fn expansion_fuel(n: nat) -> nat {
    if n + EXPANSION_LIMIT <= usize::MAX {
        (n + EXPANSION_LIMIT) as nat
    } else {
        usize::MAX as nat
    }
}

/// The result of substituting `nodes` with the properties `vars`: the
/// trimmed text, or `None` where the substitution fails; and the properties
/// that are left once those found in a cycle are removed.
pub open spec fn spec_substitute(
    vars: Map<Seq<char>, VarValue>,
    nodes: Seq<CssNode>,
) -> (Option<Seq<char>>, Map<Seq<char>, VarValue>) {
    let (r, st) = run_list(
        vars,
        expansion_fuel(vars.dom().len()),
        nodes,
        SubstState { out: Seq::empty(), visited: Set::empty(), removed: Set::empty() },
        true,
    );
    (
        if r is Done {
            Some(trim(st.out))
        } else {
            None
        },
        vars.remove_keys(st.removed),
    )
}

/// The chars of an optional string.
pub open spec fn opt_view(r: Option<String>) -> Option<Seq<char>> {
    match r {
        Some(s) => Some(s@),
        None => None,
    }
}

/// Substitutes every `var()` among the tokens `nodes` with the properties of
/// `context`, and trims the result. Properties found in a cycle are removed
/// from `context`.
pub fn substitute_nodes(nodes: &Vec<CssNode>, context: &mut CustomPropertyContext) -> (r: Option<String>)
    ensures
        (opt_view(r), final(context)@) == spec_substitute(old(context)@, nodes@),
{
    let mut work = SubstWork { out: String::new(), visited: NameSet::new(), removed: NameSet::new() };
    assert(nodes@.subrange(0, nodes@.len() as int) =~= nodes@);
    let n = context.len();
    let fuel = if n <= usize::MAX - EXPANSION_LIMIT {
        n + EXPANSION_LIMIT
    } else {
        usize::MAX
    };
    let r = parse_and_substitute_var(nodes, 0, &*context, fuel, &mut work, true);
    context.remove_names(&work.removed);
    match r {
        Ok(()) => Some(trim_string(work.out.as_str())),
        Err(_) => None,
    }
}

/// The tokens of `input`, each block with its contents, as a `cssparser`
/// parser over `input` hands them to `read_nodes`. They depend on the chars
/// of `input` alone.
pub uninterp spec fn css_nodes(input: Seq<char>) -> Seq<CssNode>;

/// Takes the next token, white space included, comments skipped
/// (`Parser::next_including_whitespace`), with its text (`ToCss`); a token
/// that opens a block (a function or `(`) comes with the block's contents,
/// read right away (`Parser::parse_nested_block`, handing it `read_nodes`),
/// or `None` for the contents of a block nested too deeply. `None` stands
/// for the end of the input or of the enclosing block. Which token comes
/// depends on the parser's position, so nothing more is stated.
#[verifier::external_body]
fn next_node(parser: &mut Parser<'_>, limit: usize) -> Option<CssNode> {
    let token = match parser.next_including_whitespace() {
        Ok(t) => t.clone(),
        Err(_) => return None,
    };
    let text = token.to_css_string();
    let mut body = || parser.parse_nested_block(|p| Ok::<_, cssparser::ParseError<()>>(read_nodes(p, limit))).ok();
    Some(match token {
        Token::Function(name) => CssNode::Function(name.to_string(), text, body()),
        Token::ParenthesisBlock => CssNode::Paren(text, body()),
        Token::Ident(value) => CssNode::Ident(value.to_string(), text),
        Token::Comma => CssNode::Comma(text),
        Token::WhiteSpace(_) => CssNode::WhiteSpace(text),
        _ => CssNode::Other(text),
    })
}

/// Reads the tokens left at the parser's level, each block with its
/// contents. Every token takes at least one byte of the input, so at most
/// `limit` (the input's length in bytes) tokens are read.
fn read_nodes(parser: &mut Parser<'_>, limit: usize) -> Vec<CssNode> {
    let mut nodes: Vec<CssNode> = Vec::new();
    let mut left: usize = limit;
    while left > 0
        decreases left,
    {
        left = left - 1;
        match next_node(parser, limit) {
            Some(node) => nodes.push(node),
            None => {
                left = 0;
            },
        }
    }
    nodes
}

/// The tokens of `input`, each block with its contents: a parser over
/// `input` (`Parser::new`) read to its end by `read_nodes`
/// (`Parser::parse_entirely`, which cannot fail after it).
#[verifier::external_body]
fn tokenize(input: &str) -> (r: Vec<CssNode>)
    ensures
        r@ == css_nodes(input@),
{
    match Parser::new(input).parse_entirely(|p| Ok::<_, cssparser::ParseError<()>>(read_nodes(p, input.len()))) {
        Ok(nodes) => nodes,
        Err(_) => Vec::new(),
    }
}

/// Substitutes every `var()` in `expr` with the properties of `context`,
/// and trims the result; `None` where the substitution fails. Properties
/// found in a cycle are removed from `context`.
pub fn substitute_variable(expr: &str, context: &mut CustomPropertyContext) -> (r: Option<String>)
    ensures
        (opt_view(r), final(context)@) == spec_substitute(old(context)@, css_nodes(expr@)),
{
    let nodes = tokenize(expr);
    substitute_nodes(&nodes, context)
}

impl CustomPropertyContext {
    /// Sets the property `name` to `value` (its tokens are read here), or
    /// removes it where `value` is `None`.
    pub fn set_custom_property(&mut self, name: &str, value: Option<String>)
        ensures
            match value {
                Some(v) => final(self)@ == old(self)@.insert(name@, (v@, css_nodes(v@))),
                None => final(self)@ == old(self)@.remove(name@),
            },
    {
        proof {
            use_type_invariant(&*self);
        }
        let found = self.find(name);
        match value {
            None => {
                match found {
                    Some(k) => {
                        proof {
                            lemma_entries_map_remove(self.entries@, k as int);
                            let t = self.entries@.remove(k as int);
                            assert forall|a: int, b: int| 0 <= a < t.len() && 0 <= b < t.len() && a != b implies t[a].name@ != t[b].name@ by {
                                let a0 = if a < k { a } else { a + 1 };
                                let b0 = if b < k { b } else { b + 1 };
                                assert(t[a] == self.entries@[a0]);
                                assert(t[b] == self.entries@[b0]);
                            }
                        }
                        let mut entries = Vec::new();
                        std::mem::swap(&mut entries, &mut self.entries);
                        entries.remove(k);
                        self.entries = entries;
                    },
                    None => {
                        assert(old(self)@.remove(name@) =~= old(self)@);
                    },
                }
            },
            Some(v) => {
                let tokens = tokenize(v.as_str());
                let ghost vt: VarValue = (v@, tokens@);
                let entry = CustomProperty { name: copy_str(name), value: v, tokens };
                let mut entries = Vec::new();
                std::mem::swap(&mut entries, &mut self.entries);
                let ghost s = entries@;
                match found {
                    Some(k) => {
                        proof {
                            lemma_entries_map_update(s, k as int, entry);
                            let t = s.update(k as int, entry);
                            assert forall|a: int, b: int| 0 <= a < t.len() && 0 <= b < t.len() && a != b implies t[a].name@ != t[b].name@ by {
                                if a != k && b != k {
                                    assert(t[a] == s[a] && t[b] == s[b]);
                                } else if a == k {
                                    assert(t[b] == s[b]);
                                } else {
                                    assert(t[a] == s[a]);
                                }
                            }
                        }
                        entries.set(k, entry);
                    },
                    None => {
                        proof {
                            lemma_entries_map_dom(s, name@);
                            let t = s.push(entry);
                            assert(t.drop_last() =~= s);
                            assert forall|a: int, b: int| 0 <= a < t.len() && 0 <= b < t.len() && a != b implies t[a].name@ != t[b].name@ by {
                                if a < s.len() && b < s.len() {
                                    assert(t[a] == s[a] && t[b] == s[b]);
                                } else if a < s.len() {
                                    assert(t[a] == s[a]);
                                } else {
                                    assert(t[b] == s[b]);
                                }
                            }
                        }
                        entries.push(entry);
                    },
                }
                self.entries = entries;
                assert(self@ == old(self)@.insert(name@, vt));
            },
        }
    }
}

/// A copy of `s`.
fn copy_str(s: &str) -> (r: String)
    ensures
        r@ == s@,
{
    let mut r = String::new();
    push_str(&mut r, s);
    r
}

} // verus!

//! Reactivity planning: signal bits, dependency masks of computeds, and the
//! plan of the DOM nodes that a component's template creates.

use vstd::prelude::*;
use crate::syntax::ast::{
    TypeV,
    clone_fns, ComponentDecl, ComponentDeclV, ComputedDecl, ComputedDeclV, Expr, ExprV, FnDecl, FnDeclV,
    TemplateNode, TemplateNodeV, Type, AttributeValue, AttributeValueV, fns_view,
};
use crate::analysis::optimizer::{component_folds_safely, folded_component, folded_node, AstOptimizer};
use crate::text::{push_char, push_str, string_of};
use crate::syntax::ast::AttributeV;

verus! {

/// The id that a name was last given in a list of (name, id) pairs.
pub open spec fn lookup_name(m: Seq<(Seq<char>, usize)>, key: Seq<char>) -> Option<usize>
    decreases m.len(),
{
    if m.len() == 0 {
        None
    } else if m.last().0 == key {
        Some(m.last().1)
    } else {
        lookup_name(m.drop_last(), key)
    }
}

/// A map from names to ids: a later insertion of a name replaces the earlier one.
#[derive(Debug)]
pub struct NameMap {
    entries: Vec<(String, usize)>,
}

impl View for NameMap {
    type V = Seq<(Seq<char>, usize)>;

    closed spec fn view(&self) -> Seq<(Seq<char>, usize)> {
        Seq::new(self.entries@.len(), |i: int| (self.entries@[i].0@, self.entries@[i].1))
    }
}

impl NameMap {
    /// An empty map.
    pub fn new() -> (m: Self)
        ensures
            m@ == Seq::<(Seq<char>, usize)>::empty(),
    {
        let m = NameMap { entries: Vec::new() };
        assert(m@ =~= Seq::<(Seq<char>, usize)>::empty());
        m
    }

    /// Gives `name` the id `id`.
    pub fn insert(&mut self, name: String, id: usize)
        ensures
            final(self)@ == old(self)@.push((name@, id)),
    {
        self.entries.push((name, id));
        assert(self@ =~= old(self)@.push((name@, id)));
    }

    /// The id of `name`, if it has one.
    pub fn get(&self, name: &String) -> (r: Option<usize>)
        ensures
            r == lookup_name(self@, name@),
    {
        let mut i = self.entries.len();
        assert(self@.subrange(0, i as int) =~= self@);
        while i > 0
            invariant
                i <= self.entries@.len(),
                lookup_name(self@, name@) == lookup_name(self@.subrange(0, i as int), name@),
            decreases i,
        {
            assert(self@.subrange(0, i as int).drop_last() =~= self@.subrange(0, i - 1));
            if self.entries[i - 1].0 == *name {
                return Some(self.entries[i - 1].1);
            }
            i -= 1;
        }
        None
    }

    /// Whether every id of the map is at most `bound`.
    pub fn ids_at_most(&self, bound: usize) -> (b: bool)
        ensures
            b == forall|i: int| 0 <= i < self@.len() ==> #[trigger] self@[i].1 <= bound,
    {
        let mut i: usize = 0;
        while i < self.entries.len()
            invariant
                i <= self.entries@.len(),
                forall|j: int| 0 <= j < i ==> #[trigger] self@[j].1 <= bound,
            decreases self.entries@.len() - i,
        {
            if self.entries[i].1 > bound {
                assert(self@[i as int].1 > bound);
                return false;
            }
            i += 1;
        }
        true
    }

    /// A copy of the map.
    pub fn copy(&self) -> (r: Self)
        ensures
            r@ == self@,
    {
        let mut entries: Vec<(String, usize)> = Vec::new();
        let mut i: usize = 0;
        while i < self.entries.len()
            invariant
                i <= self.entries@.len(),
                entries@.len() == i,
                forall|j: int| 0 <= j < i ==> (#[trigger] entries@[j]).0@ == self.entries@[j].0@ && entries@[j].1
                    == self.entries@[j].1,
            decreases self.entries@.len() - i,
        {
            entries.push((self.entries[i].0.clone(), self.entries[i].1));
            i += 1;
        }
        let r = NameMap { entries };
        assert(r@ =~= self@);
        r
    }
}

/// A signal with its id and its bit in the dirty mask.
#[derive(Debug)]
pub struct SignalInfo {
    pub id: usize,
    pub mask: u32,
    pub name: String,
    pub type_ann: Type,
    pub init_expr: Expr,
}

pub struct SignalInfoV {
    pub id: usize,
    pub mask: u32,
    pub name: Seq<char>,
    pub type_ann: TypeV,
    pub init_expr: ExprV,
}

impl View for SignalInfo {
    type V = SignalInfoV;

    open spec fn view(&self) -> SignalInfoV {
        SignalInfoV {
            id: self.id,
            mask: self.mask,
            name: self.name@,
            type_ann: self.type_ann@,
            init_expr: self.init_expr@,
        }
    }
}

impl Clone for SignalInfo {
    fn clone(&self) -> (r: Self)
        ensures
            r@ == self@,
    {
        SignalInfo {
            id: self.id,
            mask: self.mask,
            name: self.name.clone(),
            type_ann: self.type_ann.clone(),
            init_expr: self.init_expr.clone(),
        }
    }
}

/// A computed value with its id and the mask of the signals it depends on.
#[derive(Debug)]
pub struct ComputedInfo {
    pub id: usize,
    pub name: String,
    pub type_ann: Type,
    pub expr: Expr,
    pub mask: u32,
}

pub struct ComputedInfoV {
    pub id: usize,
    pub name: Seq<char>,
    pub type_ann: TypeV,
    pub expr: ExprV,
    pub mask: u32,
}

impl View for ComputedInfo {
    type V = ComputedInfoV;

    open spec fn view(&self) -> ComputedInfoV {
        ComputedInfoV { id: self.id, name: self.name@, type_ann: self.type_ann@, expr: self.expr@, mask: self.mask }
    }
}

impl Clone for ComputedInfo {
    fn clone(&self) -> (r: Self)
        ensures
            r@ == self@,
    {
        ComputedInfo {
            id: self.id,
            name: self.name.clone(),
            type_ann: self.type_ann.clone(),
            expr: self.expr.clone(),
            mask: self.mask,
        }
    }
}

/// The number of entries of `m` whose name is not on `path`.
pub open spec fn unvisited(m: Seq<(Seq<char>, usize)>, path: Seq<Seq<char>>) -> nat
    decreases m.len(),
{
    if m.len() == 0 {
        0
    } else {
        unvisited(m.drop_last(), path) + if path.contains(m.last().0) {
            0nat
        } else {
            1nat
        }
    }
}

/// Putting a name on the path never adds unvisited entries, and removes one when the name is a key not yet on it.
pub proof fn lemma_unvisited_mono(m: Seq<(Seq<char>, usize)>, path: Seq<Seq<char>>, key: Seq<char>)
    ensures
        unvisited(m, path.push(key)) <= unvisited(m, path),
        lookup_name(m, key) is Some && !path.contains(key) ==> unvisited(m, path.push(key)) < unvisited(
            m,
            path,
        ),
    decreases m.len(),
{
    if m.len() > 0 {
        lemma_unvisited_mono(m.drop_last(), path, key);
        let k = m.last().0;
        assert(path.push(key).contains(k) <== path.contains(k)) by {
            if path.contains(k) {
                let i = choose|i: int| 0 <= i < path.len() && path[i] == k;
                assert(path.push(key)[i] == k);
            }
        }
        if k == key {
            assert(path.push(key)[path.len() as int] == key);
        }
    }
}

/// The mask of the signals an expression reads, directly or through the
/// computeds it names; `Err(name)` when the computed `name` is reached again
/// while its own expression is being followed. `path` holds the computeds
/// being followed.
pub open spec fn mask_of(
    e: ExprV,
    sigs: Seq<(Seq<char>, usize)>,
    comps: Seq<(Seq<char>, usize)>,
    all: Seq<ExprV>,
    path: Seq<Seq<char>>,
) -> Result<u32, Seq<char>>
    decreases unvisited(comps, path), e, 0nat,
{
    match e {
        ExprV::Ident(name, _) => match lookup_name(sigs, name) {
            Some(id) => Ok(1u32 << (id as u32)),
            None => match lookup_name(comps, name) {
                Some(cid) => if path.contains(name) {
                    Err(name)
                } else {
                    proof {
                        lemma_unvisited_mono(comps, path, name);
                    }
                    mask_of(all[cid as int], sigs, comps, all, path.push(name))
                },
                None => Ok(0),
            },
        },
        ExprV::Binary { left, right, .. } => match mask_of(*left, sigs, comps, all, path) {
            Err(x) => Err(x),
            Ok(m1) => match mask_of(*right, sigs, comps, all, path) {
                Err(x) => Err(x),
                Ok(m2) => Ok(m1 | m2),
            },
        },
        ExprV::Unary { expr, .. } => mask_of(*expr, sigs, comps, all, path),
        ExprV::Call { args, .. } => mask_of_args(args, sigs, comps, all, path),
        ExprV::MemberAccess { object, .. } => mask_of(*object, sigs, comps, all, path),
        _ => Ok(0),
    }
}

/// The union of the masks of a list of expressions, left to right; the first error stops it.
pub open spec fn mask_of_args(
    args: Seq<ExprV>,
    sigs: Seq<(Seq<char>, usize)>,
    comps: Seq<(Seq<char>, usize)>,
    all: Seq<ExprV>,
    path: Seq<Seq<char>>,
) -> Result<u32, Seq<char>>
    decreases unvisited(comps, path), args, 1nat,
{
    if args.len() == 0 {
        Ok(0)
    } else {
        proof {
            assert(decreases_to!(args => args[args.len() - 1]));
            assert(decreases_to!(args => args.subrange(0, args.len() - 1)));
        }
        match mask_of_args(args.subrange(0, args.len() - 1), sigs, comps, all, path) {
            Err(x) => Err(x),
            Ok(m) => match mask_of(args[args.len() - 1], sigs, comps, all, path) {
                Err(x) => Err(x),
                Ok(x) => Ok(m | x),
            },
        }
    }
}

/// The names on a path of computeds being followed.
pub open spec fn path_view(v: Seq<String>) -> Seq<Seq<char>> {
    Seq::new(v.len(), |i: int| v[i]@)
}

/// The expressions of a list of computed declarations.
pub open spec fn computed_exprs(v: Seq<ComputedDecl>) -> Seq<ExprV> {
    Seq::new(v.len(), |i: int| v[i].expr@)
}

/// The message for a dependency cycle detected at the computed `name`.
pub open spec fn cyclic_message(name: Seq<char>) -> Seq<char> {
    "Cyclic dependency detected in computed '"@ + name + "'"@
}

fn contains_name(v: &Vec<String>, name: &String) -> (b: bool)
    ensures
        b == path_view(v@).contains(name@),
{
    let mut i: usize = 0;
    while i < v.len()
        invariant
            i <= v@.len(),
            forall|j: int| 0 <= j < i ==> v@[j]@ != name@,
        decreases v@.len() - i,
    {
        if v[i] == *name {
            assert(path_view(v@)[i as int] == name@);
            return true;
        }
        i += 1;
    }
    proof {
        if path_view(v@).contains(name@) {
            let j = choose|j: int| 0 <= j < path_view(v@).len() && path_view(v@)[j] == name@;
            assert(v@[j]@ == name@);
        }
    }
    false
}

fn cyclic_error(name: &String) -> (r: String)
    ensures
        r@ == cyclic_message(name@),
{
    let mut r = string_of("Cyclic dependency detected in computed '");
    push_str(&mut r, name.as_str());
    push_str(&mut r, "'");
    r
}

/// The ids of a signal map fit in the 32 bits of a mask.
pub open spec fn ids_below(m: Seq<(Seq<char>, usize)>, n: nat) -> bool {
    forall|i: int| 0 <= i < m.len() ==> (#[trigger] m[i]).1 < n
}

pub proof fn lemma_lookup_in(m: Seq<(Seq<char>, usize)>, key: Seq<char>, n: nat)
    requires
        ids_below(m, n),
    ensures
        lookup_name(m, key) matches Some(id) ==> id < n,
    decreases m.len(),
{
    if m.len() > 0 {
        assert(m[m.len() - 1].1 < n);
        lemma_lookup_in(m.drop_last(), key, n);
    }
}

/// Reactivity analysis of components.
pub struct ReactivityAnalyzer;

impl ReactivityAnalyzer {
    fn calculate_expr_mask(
        expr: &Expr,
        signals: &NameMap,
        computeds: &NameMap,
        all_computeds: &Vec<ComputedDecl>,
        visited: &mut Vec<String>,
    ) -> (r: Result<u32, String>)
        requires
            ids_below(signals@, 32),
            ids_below(computeds@, all_computeds@.len()),
        ensures
            match mask_of(expr@, signals@, computeds@, computed_exprs(all_computeds@), path_view(old(visited)@)) {
                Ok(m) => r == Ok::<u32, String>(m) && final(visited)@ == old(visited)@,
                Err(name) => r is Err && r->Err_0@ == cyclic_message(name),
            },
        decreases unvisited(computeds@, path_view(old(visited)@)), expr, 0nat,
    {
        let ghost all = computed_exprs(all_computeds@);
        let ghost path = path_view(visited@);
        match expr {
            Expr::Ident(name, _) => {
                proof {
                    lemma_lookup_in(signals@, name@, 32);
                    lemma_lookup_in(computeds@, name@, all_computeds@.len() as nat);
                }
                if let Some(sig_id) = signals.get(name) {
                    Ok(1u32 << (sig_id as u32))
                } else if let Some(comp_id) = computeds.get(name) {
                    if contains_name(visited, name) {
                        return Err(cyclic_error(name));
                    }
                    let ghost v0 = visited@;
                    visited.push(name.clone());
                    proof {
                        assert(path_view(visited@) =~= path.push(name@));
                        lemma_unvisited_mono(computeds@, path, name@);
                    }
                    let comp_decl = &all_computeds[comp_id];
                    assert(all[comp_id as int] == comp_decl.expr@);
                    let mask = Self::calculate_expr_mask(&comp_decl.expr, signals, computeds, all_computeds, visited);
                    match mask {
                        Ok(m) => {
                            visited.pop();
                            assert(visited@ =~= v0);
                            Ok(m)
                        },
                        Err(msg) => Err(msg),
                    }
                } else {
                    Ok(0)
                }
            },
            Expr::Binary { left, right, .. } => {
                let m1 = match Self::calculate_expr_mask(left, signals, computeds, all_computeds, visited) {
                    Ok(m) => m,
                    Err(msg) => return Err(msg),
                };
                let m2 = match Self::calculate_expr_mask(right, signals, computeds, all_computeds, visited) {
                    Ok(m) => m,
                    Err(msg) => return Err(msg),
                };
                Ok(m1 | m2)
            },
            Expr::Unary { expr: inner, .. } => {
                Self::calculate_expr_mask(inner, signals, computeds, all_computeds, visited)
            },
            Expr::Call { callee, args, span } => {
                let mut mask: u32 = 0;
                let mut i: usize = 0;
                let ghost v0 = visited@;
                while i < args.len()
                    invariant
                        i <= args@.len(),
                        ids_below(signals@, 32),
                        ids_below(computeds@, all_computeds@.len()),
                        visited@ == v0,
                        v0 == old(visited)@,
                        path_view(v0) == path,
                        all == computed_exprs(all_computeds@),
                        *expr == (Expr::Call { callee: *callee, args: *args, span: *span }),
                        mask_of_args(expr@->args.subrange(0, i as int), signals@, computeds@, all, path)
                            == Ok::<u32, Seq<char>>(mask),
                    decreases args@.len() - i,
                {
                    proof {
                        assert(decreases_to!(expr => args@[i as int]));
                        let s = expr@->args.subrange(0, i + 1);
                        assert(s.subrange(0, i as int) =~= expr@->args.subrange(0, i as int));
                        assert(s[i as int] == args@[i as int]@);
                    }
                    match Self::calculate_expr_mask(&args[i], signals, computeds, all_computeds, visited) {
                        Ok(m) => {
                            mask = mask | m;
                        },
                        Err(msg) => {
                            proof {
                                lemma_args_error_prefix(expr@->args, (i + 1) as int, signals@, computeds@, all, path);
                            }
                            return Err(msg);
                        },
                    }
                    i += 1;
                }
                assert(expr@->args.subrange(0, i as int) =~= expr@->args);
                Ok(mask)
            },
            Expr::MemberAccess { object, .. } => {
                Self::calculate_expr_mask(object, signals, computeds, all_computeds, visited)
            },
            _ => Ok(0),
        }
    }
}

/// An error in a prefix of the arguments is the error of all of them.
proof fn lemma_args_error_prefix(
    args: Seq<ExprV>,
    k: int,
    sigs: Seq<(Seq<char>, usize)>,
    comps: Seq<(Seq<char>, usize)>,
    all: Seq<ExprV>,
    path: Seq<Seq<char>>,
)
    requires
        0 <= k <= args.len(),
        mask_of_args(args.subrange(0, k), sigs, comps, all, path) is Err,
    ensures
        mask_of_args(args, sigs, comps, all, path) == mask_of_args(args.subrange(0, k), sigs, comps, all, path),
    decreases args.len() - k,
{
    if k < args.len() {
        let s = args.subrange(0, k + 1);
        assert(s.subrange(0, k) =~= args.subrange(0, k));
        lemma_args_error_prefix(args, k + 1, sigs, comps, all, path);
    } else {
        assert(args.subrange(0, k) =~= args);
    }
}

/// The first computed of the list named `name`.
pub open spec fn first_computed(comps: Seq<ComputedInfoV>, name: Seq<char>) -> Option<ComputedInfoV>
    decreases comps.len(),
{
    if comps.len() == 0 {
        None
    } else if comps[0].name == name {
        Some(comps[0])
    } else {
        first_computed(comps.drop_first(), name)
    }
}

/// The trigger mask of a dynamic text expression: the bits of the signals it
/// names and the masks of the computeds it names.
pub open spec fn mask_for(e: ExprV, sigs: Seq<(Seq<char>, usize)>, comps: Seq<ComputedInfoV>) -> u32
    decreases e,
{
    match e {
        ExprV::Ident(name, _) => match lookup_name(sigs, name) {
            Some(id) => 1u32 << (id as u32),
            None => match first_computed(comps, name) {
                Some(c) => c.mask,
                None => 0,
            },
        },
        ExprV::Binary { left, right, .. } => mask_for(*left, sigs, comps) | mask_for(*right, sigs, comps),
        ExprV::Unary { expr, .. } => mask_for(*expr, sigs, comps),
        ExprV::Call { args, .. } => mask_for_args(args, sigs, comps),
        ExprV::MemberAccess { object, .. } => mask_for(*object, sigs, comps),
        _ => 0,
    }
}

/// The union of the trigger masks of a list of expressions.
pub open spec fn mask_for_args(args: Seq<ExprV>, sigs: Seq<(Seq<char>, usize)>, comps: Seq<ComputedInfoV>) -> u32
    decreases args,
{
    if args.len() == 0 {
        0
    } else {
        proof {
            assert(decreases_to!(args => args[args.len() - 1]));
            assert(decreases_to!(args => args.subrange(0, args.len() - 1)));
        }
        mask_for_args(args.subrange(0, args.len() - 1), sigs, comps) | mask_for(args[args.len() - 1], sigs, comps)
    }
}

/// A dynamic text node: its slot in the component state, the mask of the
/// signals that trigger its update, and its expression.
#[derive(Debug)]
pub struct DynamicTextSlot {
    pub state_slot: usize,
    pub trigger_mask: u32,
    pub expr: Expr,
}

pub struct DynamicTextSlotV {
    pub state_slot: nat,
    pub trigger_mask: u32,
    pub expr: ExprV,
}

impl View for DynamicTextSlot {
    type V = DynamicTextSlotV;

    open spec fn view(&self) -> DynamicTextSlotV {
        DynamicTextSlotV { state_slot: self.state_slot as nat, trigger_mask: self.trigger_mask, expr: self.expr@ }
    }
}

/// What a planned DOM node is.
#[derive(Debug)]
pub enum PlannedNodeKind {
    Element {
        tag: String,
        static_attrs: Vec<(String, String)>,
        events: Vec<(String, String)>,
        static_text: Option<String>,
    },
    StaticText(String),
    DynamicText(DynamicTextSlot),
}

pub enum PlannedNodeKindV {
    Element {
        tag: Seq<char>,
        static_attrs: Seq<(Seq<char>, Seq<char>)>,
        events: Seq<(Seq<char>, Seq<char>)>,
        static_text: Option<Seq<char>>,
    },
    StaticText(Seq<char>),
    DynamicText(DynamicTextSlotV),
}

/// The views of a list of text pairs.
pub open spec fn pairs_view(v: Seq<(String, String)>) -> Seq<(Seq<char>, Seq<char>)> {
    Seq::new(v.len(), |i: int| (v[i].0@, v[i].1@))
}

impl View for PlannedNodeKind {
    type V = PlannedNodeKindV;

    open spec fn view(&self) -> PlannedNodeKindV {
        match self {
            PlannedNodeKind::Element { tag, static_attrs, events, static_text } => PlannedNodeKindV::Element {
                tag: tag@,
                static_attrs: pairs_view(static_attrs@),
                events: pairs_view(events@),
                static_text: match static_text {
                    Some(t) => Some(t@),
                    None => None,
                },
            },
            PlannedNodeKind::StaticText(t) => PlannedNodeKindV::StaticText(t@),
            PlannedNodeKind::DynamicText(d) => PlannedNodeKindV::DynamicText(d@),
        }
    }
}

/// A planned DOM node: its id, the id of its parent (0 is the mount root), and what it is.
#[derive(Debug)]
pub struct PlannedElement {
    pub id: usize,
    pub parent_id: usize,
    pub kind: PlannedNodeKind,
}

pub struct PlannedElementV {
    pub id: nat,
    pub parent_id: nat,
    pub kind: PlannedNodeKindV,
}

impl View for PlannedElement {
    type V = PlannedElementV;

    open spec fn view(&self) -> PlannedElementV {
        PlannedElementV { id: self.id as nat, parent_id: self.parent_id as nat, kind: self.kind@ }
    }
}

/// The views of a list of planned nodes.
pub open spec fn planned_view(v: Seq<PlannedElement>) -> Seq<PlannedElementV> {
    Seq::new(v.len(), |i: int| v[i]@)
}

/// The (name, value) pairs of the static attributes, in order.
pub open spec fn static_attrs(attrs: Seq<crate::syntax::ast::AttributeV>) -> Seq<(Seq<char>, Seq<char>)>
    decreases attrs.len(),
{
    if attrs.len() == 0 {
        Seq::empty()
    } else {
        let rest = static_attrs(attrs.drop_last());
        match attrs.last().value {
            AttributeValueV::Static(v) => rest.push((attrs.last().name, v)),
            AttributeValueV::Dynamic(_) => rest,
        }
    }
}

/// The (event, handler) pairs of the event bindings, in order.
pub open spec fn event_pairs(evs: Seq<crate::syntax::ast::EventBindingV>) -> Seq<(Seq<char>, Seq<char>)> {
    Seq::new(evs.len(), |i: int| (evs[i].event_name, evs[i].handler))
}

/// Some child is a dynamic expression.
pub open spec fn has_dynamic(cs: Seq<TemplateNodeV>) -> bool {
    exists|i: int| 0 <= i < cs.len() && cs[i] is DynamicExpr
}

/// Some child is an element.
pub open spec fn has_element(cs: Seq<TemplateNodeV>) -> bool {
    exists|i: int| 0 <= i < cs.len() && cs[i] is Element
}

/// The texts of the text children, concatenated in order.
pub open spec fn concat_texts(cs: Seq<TemplateNodeV>) -> Seq<char>
    decreases cs.len(),
{
    if cs.len() == 0 {
        Seq::empty()
    } else {
        concat_texts(cs.drop_last()) + match cs.last() {
            TemplateNodeV::Text(t, _) => t,
            _ => Seq::empty(),
        }
    }
}

/// The plan of a template node: the planned nodes in creation order, the
/// next free node id and the next free dynamic slot. A node gets the next
/// id; an element whose children are only texts becomes one node carrying
/// their concatenation; any other element is followed by the plans of its
/// children, in order, with it as their parent; a dynamic expression gets the
/// next slot and the mask of the signals it reads.
pub open spec fn plan_node(
    n: TemplateNodeV,
    parent: nat,
    next_id: nat,
    next_slot: nat,
    sigs: Seq<(Seq<char>, usize)>,
    comps: Seq<ComputedInfoV>,
) -> (Seq<PlannedElementV>, nat, nat)
    decreases n,
{
    match n {
        TemplateNodeV::Element(el) => {
            let attrs = static_attrs(el.attributes);
            let evs = event_pairs(el.events);
            if !has_dynamic(el.children) && !has_element(el.children) {
                let text = concat_texts(el.children);
                let kind = PlannedNodeKindV::Element {
                    tag: el.tag,
                    static_attrs: attrs,
                    events: evs,
                    static_text: if text.len() == 0 { None } else { Some(text) },
                };
                (seq![PlannedElementV { id: next_id, parent_id: parent, kind }], next_id + 1, next_slot)
            } else {
                let kind = PlannedNodeKindV::Element {
                    tag: el.tag,
                    static_attrs: attrs,
                    events: evs,
                    static_text: None,
                };
                let head = PlannedElementV { id: next_id, parent_id: parent, kind };
                let (cs, nid, ns) = plan_children(el.children, next_id, next_id + 1, next_slot, sigs, comps);
                (seq![head] + cs, nid, ns)
            }
        },
        TemplateNodeV::Text(t, _) => (
            seq![PlannedElementV { id: next_id, parent_id: parent, kind: PlannedNodeKindV::StaticText(t) }],
            next_id + 1,
            next_slot,
        ),
        TemplateNodeV::DynamicExpr(e, _) => (
            seq![
                PlannedElementV {
                    id: next_id,
                    parent_id: parent,
                    kind: PlannedNodeKindV::DynamicText(
                        DynamicTextSlotV { state_slot: next_slot, trigger_mask: mask_for(e, sigs, comps), expr: e },
                    ),
                },
            ],
            next_id + 1,
            next_slot + 1,
        ),
    }
}

/// The plans of a list of sibling nodes, one after the other.
pub open spec fn plan_children(
    cs: Seq<TemplateNodeV>,
    parent: nat,
    next_id: nat,
    next_slot: nat,
    sigs: Seq<(Seq<char>, usize)>,
    comps: Seq<ComputedInfoV>,
) -> (Seq<PlannedElementV>, nat, nat)
    decreases cs,
{
    if cs.len() == 0 {
        (Seq::empty(), next_id, next_slot)
    } else {
        proof {
            assert(decreases_to!(cs => cs[cs.len() - 1]));
            assert(decreases_to!(cs => cs.subrange(0, cs.len() - 1)));
        }
        let (a, i1, s1) = plan_children(cs.subrange(0, cs.len() - 1), parent, next_id, next_slot, sigs, comps);
        let (b, i2, s2) = plan_node(cs[cs.len() - 1], parent, i1, s1, sigs, comps);
        (a + b, i2, s2)
    }
}

/// The number of nodes of a template tree.
pub open spec fn node_count(n: TemplateNodeV) -> nat
    decreases n,
{
    match n {
        TemplateNodeV::Element(el) => 1 + children_count(el.children),
        _ => 1,
    }
}

/// The number of nodes of a list of template trees.
pub open spec fn children_count(cs: Seq<TemplateNodeV>) -> nat
    decreases cs,
{
    if cs.len() == 0 {
        0
    } else {
        proof {
            assert(decreases_to!(cs => cs[cs.len() - 1]));
            assert(decreases_to!(cs => cs.subrange(0, cs.len() - 1)));
        }
        children_count(cs.subrange(0, cs.len() - 1)) + node_count(cs[cs.len() - 1])
    }
}

/// The state slots of the dynamic text nodes of a plan, in order.
pub open spec fn dyn_slots(es: Seq<PlannedElementV>) -> Seq<nat>
    decreases es.len(),
{
    if es.len() == 0 {
        Seq::empty()
    } else {
        dyn_slots(es.drop_last()) + match es.last().kind {
            PlannedNodeKindV::DynamicText(d) => seq![d.state_slot],
            _ => Seq::empty(),
        }
    }
}

/// The numbers `a, a+1, ..., b-1`.
pub open spec fn nat_range(a: nat, b: nat) -> Seq<nat> {
    Seq::new((b - a) as nat, |i: int| (a + i) as nat)
}

pub proof fn lemma_dyn_slots_append(a: Seq<PlannedElementV>, b: Seq<PlannedElementV>)
    ensures
        dyn_slots(a + b) == dyn_slots(a) + dyn_slots(b),
        dyn_slots(a).len() <= a.len(),
    decreases b.len(), a.len(),
{
    if b.len() == 0 {
        assert(a + b =~= a);
        if a.len() > 0 {
            lemma_dyn_slots_append(a.drop_last(), b);
        }
    } else {
        assert((a + b).drop_last() =~= a + b.drop_last());
        lemma_dyn_slots_append(a, b.drop_last());
    }
}

/// The shape that every plan has: nodes numbered from `next_id` on in order,
/// each node's parent either `parent` or an earlier node of the plan, and the
/// dynamic slots numbered from `next_slot` on in order.
pub open spec fn plan_shape(
    r: (Seq<PlannedElementV>, nat, nat),
    parent: nat,
    next_id: nat,
    next_slot: nat,
    count: nat,
) -> bool {
    let (es, nid, ns) = r;
    &&& nid >= next_id
    &&& es.len() == nid - next_id
    &&& es.len() <= count
    &&& forall|k: int| 0 <= k < es.len() ==> (#[trigger] es[k]).id == next_id + k
    &&& forall|k: int|
        0 <= k < es.len() ==> (#[trigger] es[k]).parent_id == parent || (next_id <= es[k].parent_id
            && es[k].parent_id < es[k].id)
    &&& ns >= next_slot
    &&& dyn_slots(es) == nat_range(next_slot, ns)
}

/// Law: a node's plan numbers its nodes from `next_id` in creation order,
/// names as parent only `parent` (for its first node) or earlier nodes of the
/// plan, and numbers its dynamic slots from `next_slot` in order.
pub proof fn law_plan_shape(
    n: TemplateNodeV,
    parent: nat,
    next_id: nat,
    next_slot: nat,
    sigs: Seq<(Seq<char>, usize)>,
    comps: Seq<ComputedInfoV>,
)
    ensures
        plan_shape(plan_node(n, parent, next_id, next_slot, sigs, comps), parent, next_id, next_slot, node_count(n)),
        plan_node(n, parent, next_id, next_slot, sigs, comps).0.len() >= 1,
        plan_node(n, parent, next_id, next_slot, sigs, comps).0[0].parent_id == parent,
    decreases n,
{
    let r = plan_node(n, parent, next_id, next_slot, sigs, comps);
    match n {
        TemplateNodeV::Element(el) => {
            if !has_dynamic(el.children) && !has_element(el.children) {
                assert(dyn_slots(r.0) =~= dyn_slots(r.0.drop_last()));
                assert(nat_range(next_slot, r.2) =~= Seq::<nat>::empty());
            } else {
                let head = r.0[0];
                let c = plan_children(el.children, next_id, next_id + 1, next_slot, sigs, comps);
                lemma_plan_children_shape(el.children, next_id, next_id + 1, next_slot, sigs, comps);
                assert(r.0 == seq![head] + c.0);
                lemma_dyn_slots_append(seq![head], c.0);
                assert(dyn_slots(seq![head]) =~= Seq::<nat>::empty()) by {
                    assert(seq![head].drop_last() =~= Seq::<PlannedElementV>::empty());
                    assert(dyn_slots(seq![head].drop_last()) =~= Seq::<nat>::empty());
                    assert(seq![head].last() == head);
                }
                assert(dyn_slots(r.0) =~= dyn_slots(c.0));
                assert forall|k: int| 0 <= k < r.0.len() implies (#[trigger] r.0[k]).id == next_id + k by {
                    if k > 0 {
                        assert(r.0[k] == c.0[k - 1]);
                    }
                }
                assert forall|k: int| 0 <= k < r.0.len() implies (#[trigger] r.0[k]).parent_id == parent || (
                next_id <= r.0[k].parent_id && r.0[k].parent_id < r.0[k].id) by {
                    if k > 0 {
                        assert(r.0[k] == c.0[k - 1]);
                    }
                }
            }
        },
        TemplateNodeV::Text(_, _) => {
            assert(dyn_slots(r.0) =~= dyn_slots(r.0.drop_last()));
            assert(nat_range(next_slot, r.2) =~= Seq::<nat>::empty());
        },
        TemplateNodeV::DynamicExpr(_, _) => {
            assert(r.0.drop_last() =~= Seq::<PlannedElementV>::empty());
            assert(dyn_slots(r.0.drop_last()) =~= Seq::<nat>::empty());
            assert(dyn_slots(r.0) =~= seq![next_slot]);
            assert(nat_range(next_slot, r.2) =~= seq![next_slot]);
        },
    }
}

/// The plan of a list of siblings has the same shape, with `parent` as the
/// parent of each sibling's first node.
pub proof fn lemma_plan_children_shape(
    cs: Seq<TemplateNodeV>,
    parent: nat,
    next_id: nat,
    next_slot: nat,
    sigs: Seq<(Seq<char>, usize)>,
    comps: Seq<ComputedInfoV>,
)
    ensures
        plan_shape(plan_children(cs, parent, next_id, next_slot, sigs, comps), parent, next_id, next_slot, children_count(cs)),
    decreases cs,
{
    let r = plan_children(cs, parent, next_id, next_slot, sigs, comps);
    if cs.len() == 0 {
        assert(dyn_slots(r.0) =~= Seq::<nat>::empty());
        assert(nat_range(next_slot, next_slot) =~= Seq::<nat>::empty());
    } else {
        assert(decreases_to!(cs => cs[cs.len() - 1]));
        assert(decreases_to!(cs => cs.subrange(0, cs.len() - 1)));
        let pre = cs.subrange(0, cs.len() - 1);
        let a = plan_children(pre, parent, next_id, next_slot, sigs, comps);
        let b = plan_node(cs[cs.len() - 1], parent, a.1, a.2, sigs, comps);
        lemma_plan_children_shape(pre, parent, next_id, next_slot, sigs, comps);
        law_plan_shape(cs[cs.len() - 1], parent, a.1, a.2, sigs, comps);
        assert(r.0 == a.0 + b.0);
        lemma_dyn_slots_append(a.0, b.0);
        assert(nat_range(next_slot, b.2) =~= nat_range(next_slot, a.2) + nat_range(a.2, b.2));
        assert forall|k: int| 0 <= k < r.0.len() implies (#[trigger] r.0[k]).id == next_id + k by {
            if k >= a.0.len() {
                assert(r.0[k] == b.0[k - a.0.len()]);
            } else {
                assert(r.0[k] == a.0[k]);
            }
        }
        assert forall|k: int| 0 <= k < r.0.len() implies (#[trigger] r.0[k]).parent_id == parent || (next_id
            <= r.0[k].parent_id && r.0[k].parent_id < r.0[k].id) by {
            if k >= a.0.len() {
                assert(r.0[k] == b.0[k - a.0.len()]);
            } else {
                assert(r.0[k] == a.0[k]);
            }
        }
    }
}

/// The views of a list of computed infos.
pub open spec fn infos_view(v: Seq<ComputedInfo>) -> Seq<ComputedInfoV> {
    Seq::new(v.len(), |i: int| v[i]@)
}

pub proof fn lemma_children_count_prefix(cs: Seq<TemplateNodeV>, i: int)
    requires
        0 <= i <= cs.len(),
    ensures
        children_count(cs.subrange(0, i)) <= children_count(cs),
    decreases cs.len() - i,
{
    if i < cs.len() {
        let s = cs.subrange(0, i + 1);
        assert(s.subrange(0, i) =~= cs.subrange(0, i));
        assert(s[s.len() - 1] == cs[i]);
        lemma_children_count_prefix(cs, i + 1);
    } else {
        assert(cs.subrange(0, i) =~= cs);
    }
}


/// The number of children of an element node (none for other nodes).
pub open spec fn child_len(n: TemplateNodeV) -> nat {
    match n {
        TemplateNodeV::Element(el) => el.children.len(),
        _ => 0,
    }
}

/// Folding keeps the number of nodes of a template.
pub proof fn lemma_folded_count(n: TemplateNodeV)
    ensures
        node_count(folded_node(n)) == node_count(n),
    decreases n, child_len(n) + 1,
{
    if let TemplateNodeV::Element(el) = n {
        lemma_folded_children(n, el.children.len() as int);
        let fc = folded_node(n)->Element_0.children;
        assert(fc.subrange(0, fc.len() as int) =~= fc);
        assert(el.children.subrange(0, el.children.len() as int) =~= el.children);
    }
}

/// Folding keeps the number of nodes of the first `k` children of an element.
proof fn lemma_folded_children(n: TemplateNodeV, k: int)
    requires
        n is Element,
        0 <= k <= child_len(n),
    ensures
        children_count(folded_node(n)->Element_0.children.subrange(0, k)) == children_count(
            n->Element_0.children.subrange(0, k),
        ),
    decreases n, k,
{
    let cs = n->Element_0.children;
    let fc = folded_node(n)->Element_0.children;
    if k > 0 {
        lemma_folded_children(n, k - 1);
        let a = fc.subrange(0, k);
        let b = cs.subrange(0, k);
        assert(a.subrange(0, k - 1) =~= fc.subrange(0, k - 1));
        assert(b.subrange(0, k - 1) =~= cs.subrange(0, k - 1));
        assert(a[k - 1] == folded_node(cs[k - 1]));
        assert(decreases_to!(n => cs[k - 1]));
        lemma_folded_count(cs[k - 1]);
    } else {
        assert(fc.subrange(0, 0) =~= Seq::<TemplateNodeV>::empty());
        assert(cs.subrange(0, 0) =~= Seq::<TemplateNodeV>::empty());
    }
}

/// The number of nodes of a template, if it is at most `cap`.
fn count_nodes(n: &TemplateNode, cap: usize) -> (r: Option<usize>)
    ensures
        match r {
            Some(c) => c == node_count(n@) && c <= cap,
            None => node_count(n@) > cap,
        },
    decreases n,
{
    match n {
        TemplateNode::Element(el) => {
            if cap == 0 {
                return None;
            }
            let mut acc: usize = 1;
            let mut i: usize = 0;
            assert(n@->Element_0.children.subrange(0, 0) =~= Seq::<TemplateNodeV>::empty());
            while i < el.children.len()
                invariant
                    i <= el.children@.len(),
                    *n == TemplateNode::Element(*el),
                    1 <= acc <= cap,
                    acc == 1 + children_count(n@->Element_0.children.subrange(0, i as int)),
                decreases el.children@.len() - i,
            {
                proof {
                    assert(decreases_to!(n => el.children@[i as int]));
                }
                let ghost cs = n@->Element_0.children;
                proof {
                    assert(cs[i as int] == el.children@[i as int]@);
                    let s = cs.subrange(0, i + 1);
                    assert(s.subrange(0, i as int) =~= cs.subrange(0, i as int));
                }
                match count_nodes(&el.children[i], cap - acc) {
                    Some(c) => {
                        acc = acc + c;
                    },
                    None => {
                        proof { lemma_children_count_prefix(cs, i + 1); }
                        return None;
                    },
                }
                i += 1;
            }
            assert(n@->Element_0.children.subrange(0, i as int) =~= n@->Element_0.children);
            Some(acc)
        },
        _ => {
            if cap == 0 {
                None
            } else {
                Some(1)
            }
        },
    }
}

fn first_computed_mask(computeds: &Vec<ComputedInfo>, name: &String) -> (r: Option<u32>)
    ensures
        r == (match first_computed(infos_view(computeds@), name@) {
            Some(c) => Some(c.mask),
            None => None,
        }),
{
    let mut i: usize = 0;
    assert(infos_view(computeds@).subrange(0, computeds@.len() as int) =~= infos_view(computeds@));
    while i < computeds.len()
        invariant
            i <= computeds@.len(),
            first_computed(infos_view(computeds@), name@) == first_computed(infos_view(computeds@).subrange(i as int, computeds@.len() as int), name@),
        decreases computeds@.len() - i,
    {
        let ghost rest = infos_view(computeds@).subrange(i as int, computeds@.len() as int);
        assert(rest.drop_first() =~= infos_view(computeds@).subrange(i + 1, computeds@.len() as int));
        assert(rest[0] == computeds@[i as int]@);
        if computeds[i].name == *name {
            return Some(computeds[i].mask);
        }
        i += 1;
    }
    None
}

impl ReactivityAnalyzer {
    fn calculate_mask_for_expr(expr: &Expr, signals: &NameMap, computeds: &Vec<ComputedInfo>) -> (r: u32)
        requires
            ids_below(signals@, 32),
        ensures
            r == mask_for(expr@, signals@, infos_view(computeds@)),
        decreases expr,
    {
        match expr {
            Expr::Ident(name, _) => {
                proof {
                    lemma_lookup_in(signals@, name@, 32);
                }
                if let Some(sig_id) = signals.get(name) {
                    1u32 << (sig_id as u32)
                } else if let Some(m) = first_computed_mask(computeds, name) {
                    m
                } else {
                    0
                }
            },
            Expr::Binary { left, right, .. } => {
                Self::calculate_mask_for_expr(left, signals, computeds) | Self::calculate_mask_for_expr(
                    right,
                    signals,
                    computeds,
                )
            },
            Expr::Unary { expr: inner, .. } => Self::calculate_mask_for_expr(inner, signals, computeds),
            Expr::Call { callee, args, span } => {
                let mut mask: u32 = 0;
                let mut i: usize = 0;
                while i < args.len()
                    invariant
                        i <= args@.len(),
                        ids_below(signals@, 32),
                        *expr == (Expr::Call { callee: *callee, args: *args, span: *span }),
                        mask == mask_for_args(expr@->args.subrange(0, i as int), signals@, infos_view(computeds@)),
                    decreases args@.len() - i,
                {
                    proof {
                        assert(decreases_to!(expr => args@[i as int]));
                        let s = expr@->args.subrange(0, i + 1);
                        assert(s.subrange(0, i as int) =~= expr@->args.subrange(0, i as int));
                        assert(s[i as int] == args@[i as int]@);
                    }
                    mask = mask | Self::calculate_mask_for_expr(&args[i], signals, computeds);
                    i += 1;
                }
                assert(expr@->args.subrange(0, i as int) =~= expr@->args);
                mask
            },
            Expr::MemberAccess { object, .. } => Self::calculate_mask_for_expr(object, signals, computeds),
            _ => 0,
        }
    }

    fn plan_template_node(
        node: &TemplateNode,
        parent_id: usize,
        next_elem_id: &mut usize,
        next_slot_id: &mut usize,
        signals: &NameMap,
        computeds: &Vec<ComputedInfo>,
        elements: &mut Vec<PlannedElement>,
    ) -> (r: Result<(), String>)
        requires
            *old(next_elem_id) + node_count(node@) <= usize::MAX,
            *old(next_slot_id) + node_count(node@) <= usize::MAX,
            ids_below(signals@, 32),
        ensures
            r is Ok,
            ({
                let p = plan_node(
                    node@,
                    parent_id as nat,
                    *old(next_elem_id) as nat,
                    *old(next_slot_id) as nat,
                    signals@,
                    infos_view(computeds@),
                );
                &&& planned_view(final(elements)@) == planned_view(old(elements)@) + p.0
                &&& *final(next_elem_id) as nat == p.1
                &&& *final(next_slot_id) as nat == p.2
            }),
        decreases node,
    {
        let ghost comps = infos_view(computeds@);
        let ghost e0 = planned_view(elements@);
        let ghost id0 = *next_elem_id as nat;
        let ghost slot0 = *next_slot_id as nat;
        proof {
            law_plan_shape(node@, parent_id as nat, id0, slot0, signals@, comps);
        }
        match node {
            TemplateNode::Element(elem) => {
                let elem_id = *next_elem_id;
                *next_elem_id = *next_elem_id + 1;

                let mut static_attrs_v: Vec<(String, String)> = Vec::new();
                let mut i: usize = 0;
                while i < elem.attributes.len()
                    invariant
                        i <= elem.attributes@.len(),
                        pairs_view(static_attrs_v@) == static_attrs(elem@.attributes.subrange(0, i as int)),
                    decreases elem.attributes@.len() - i,
                {
                    let ghost pre = elem@.attributes.subrange(0, i + 1);
                    assert(pre.drop_last() =~= elem@.attributes.subrange(0, i as int));
                    assert(pre.last() == elem.attributes@[i as int]@);
                    let attr = &elem.attributes[i];
                    match &attr.value {
                        AttributeValue::Static(val) => {
                            static_attrs_v.push((attr.name.clone(), val.clone()));
                            assert(pairs_view(static_attrs_v@) =~= static_attrs(pre));
                        },
                        AttributeValue::Dynamic(_) => {},
                    }
                    i += 1;
                }
                assert(elem@.attributes.subrange(0, i as int) =~= elem@.attributes);

                let mut events: Vec<(String, String)> = Vec::new();
                let mut i: usize = 0;
                while i < elem.events.len()
                    invariant
                        i <= elem.events@.len(),
                        events@.len() == i,
                        forall|j: int| 0 <= j < i ==> (#[trigger] events@[j]).0@ == elem.events@[j].event_name@
                            && events@[j].1@ == elem.events@[j].handler@,
                    decreases elem.events@.len() - i,
                {
                    events.push((elem.events[i].event_name.clone(), elem.events[i].handler.clone()));
                    i += 1;
                }
                assert(pairs_view(events@) =~= event_pairs(elem@.events));

                let mut has_dynamic_v = false;
                let mut has_child_elements = false;
                let mut i: usize = 0;
                while i < elem.children.len()
                    invariant
                        i <= elem.children@.len(),
                        has_dynamic_v == exists|j: int| 0 <= j < i && elem@.children[j] is DynamicExpr,
                        has_child_elements == exists|j: int| 0 <= j < i && elem@.children[j] is Element,
                    decreases elem.children@.len() - i,
                {
                    assert(elem@.children[i as int] == elem.children@[i as int]@);
                    match &elem.children[i] {
                        TemplateNode::DynamicExpr(..) => {
                            has_dynamic_v = true;
                        },
                        TemplateNode::Element(..) => {
                            has_child_elements = true;
                        },
                        _ => {},
                    }
                    i += 1;
                }
                if !has_dynamic_v && !has_child_elements {
                    // Leaf element with only static text
                    let mut combined = String::new();
                    let mut i: usize = 0;
                    while i < elem.children.len()
                        invariant
                            i <= elem.children@.len(),
                            combined@ == concat_texts(elem@.children.subrange(0, i as int)),
                        decreases elem.children@.len() - i,
                    {
                        let ghost pre = elem@.children.subrange(0, i + 1);
                        assert(pre.drop_last() =~= elem@.children.subrange(0, i as int));
                        assert(pre.last() == elem.children@[i as int]@);
                        if let TemplateNode::Text(txt, _) = &elem.children[i] {
                            push_str(&mut combined, txt.as_str());
                        } else {
                            assert(combined@ =~= combined@ + Seq::<char>::empty());
                        }
                        i += 1;
                    }
                    assert(elem@.children.subrange(0, i as int) =~= elem@.children);
                    let static_text = if combined.as_str().is_empty() { None } else { Some(combined) };
                    elements.push(PlannedElement {
                        id: elem_id,
                        parent_id,
                        kind: PlannedNodeKind::Element { tag: elem.tag.clone(), static_attrs: static_attrs_v, events, static_text },
                    });
                    assert(planned_view(elements@) =~= e0 + plan_node(node@, parent_id as nat, id0, slot0, signals@, comps).0);
                } else {
                    elements.push(PlannedElement {
                        id: elem_id,
                        parent_id,
                        kind: PlannedNodeKind::Element { tag: elem.tag.clone(), static_attrs: static_attrs_v, events, static_text: None },
                    });
                    let ghost e1 = planned_view(elements@);
                    assert(e1 =~= e0 + seq![plan_node(node@, parent_id as nat, id0, slot0, signals@, comps).0[0]]);
                    let ghost cs = elem@.children;
                    proof {
                        lemma_plan_children_shape(cs.subrange(0, 0), elem_id as nat, id0 + 1, slot0, signals@, comps);
                        assert(planned_view(elements@) =~= e1 + plan_children(cs.subrange(0, 0), elem_id as nat, id0 + 1, slot0, signals@, comps).0);
                    }
                    // Plan children in exact source order
                    let mut i: usize = 0;
                    while i < elem.children.len()
                        invariant
                            i <= elem.children@.len(),
                            cs == elem@.children,
                            *node == TemplateNode::Element(*elem),
                            ids_below(signals@, 32),
                            comps == infos_view(computeds@),
                            id0 + node_count(node@) <= usize::MAX,
                            slot0 + node_count(node@) <= usize::MAX,
                            node_count(node@) == 1 + children_count(cs),
                            elem_id as nat == id0,
                            ({
                                let p = plan_children(cs.subrange(0, i as int), elem_id as nat, id0 + 1, slot0, signals@, comps);
                                &&& planned_view(elements@) == e1 + p.0
                                &&& *next_elem_id as nat == p.1
                                &&& *next_slot_id as nat == p.2
                                &&& plan_shape(p, elem_id as nat, id0 + 1, slot0, children_count(cs.subrange(0, i as int)))
                            }),
                        decreases elem.children@.len() - i,
                    {
                        let ghost pre = cs.subrange(0, i + 1);
                        let ghost p_old = plan_children(cs.subrange(0, i as int), elem_id as nat, id0 + 1, slot0, signals@, comps);
                        let ghost el0 = planned_view(elements@);
                        proof {
                            assert(pre.subrange(0, i as int) =~= cs.subrange(0, i as int));
                            assert(pre[i as int] == elem.children@[i as int]@);
                            lemma_plan_children_shape(pre, elem_id as nat, id0 + 1, slot0, signals@, comps);
                            lemma_children_count_prefix(cs, i + 1);
                            lemma_dyn_slots_append(p_old.0, Seq::empty());
                            assert(decreases_to!(node => elem.children@[i as int]));
                            assert(cs[i as int] == elem.children@[i as int]@);
                            assert(children_count(pre) == children_count(cs.subrange(0, i as int)) + node_count(cs[i as int]));
                            assert(node_count(cs[i as int]) >= 1);
                            assert(dyn_slots(p_old.0).len() == p_old.2 - slot0);
                        }
                        match &elem.children[i] {
                            TemplateNode::Element(_) => {
                                let r = Self::plan_template_node(
                                    &elem.children[i],
                                    elem_id,
                                    next_elem_id,
                                    next_slot_id,
                                    signals,
                                    computeds,
                                    elements,
                                );
                            },
                            TemplateNode::Text(txt, _) => {
                                let text_id = *next_elem_id;
                                *next_elem_id = *next_elem_id + 1;
                                elements.push(PlannedElement {
                                    id: text_id,
                                    parent_id: elem_id,
                                    kind: PlannedNodeKind::StaticText(txt.clone()),
                                });
                            },
                            TemplateNode::DynamicExpr(expr, _) => {
                                let dyn_id = *next_elem_id;
                                *next_elem_id = *next_elem_id + 1;
                                let slot = *next_slot_id;
                                *next_slot_id = *next_slot_id + 1;
                                let mask = Self::calculate_mask_for_expr(expr, signals, computeds);
                                elements.push(PlannedElement {
                                    id: dyn_id,
                                    parent_id: elem_id,
                                    kind: PlannedNodeKind::DynamicText(DynamicTextSlot {
                                        state_slot: slot,
                                        trigger_mask: mask,
                                        expr: expr.clone(),
                                    }),
                                });
                            },
                        }
                        proof {
                            let pn = plan_node(cs[i as int], elem_id as nat, p_old.1, p_old.2, signals@, comps);
                            assert(planned_view(elements@) =~= el0 + pn.0);
                            assert(planned_view(elements@) =~= e1 + plan_children(pre, elem_id as nat, id0 + 1, slot0, signals@, comps).0);
                        }
                        i += 1;
                    }
                    proof {
                        assert(cs.subrange(0, i as int) =~= cs);
                        assert(planned_view(elements@) =~= e0 + plan_node(node@, parent_id as nat, id0, slot0, signals@, comps).0);
                    }
                }
                Ok(())
            },
            TemplateNode::Text(txt, _) => {
                let text_id = *next_elem_id;
                *next_elem_id = *next_elem_id + 1;
                elements.push(PlannedElement { id: text_id, parent_id, kind: PlannedNodeKind::StaticText(txt.clone()) });
                assert(planned_view(elements@) =~= e0 + plan_node(node@, parent_id as nat, id0, slot0, signals@, comps).0);
                Ok(())
            },
            TemplateNode::DynamicExpr(expr, _) => {
                let dyn_id = *next_elem_id;
                *next_elem_id = *next_elem_id + 1;
                let slot = *next_slot_id;
                *next_slot_id = *next_slot_id + 1;
                let mask = Self::calculate_mask_for_expr(expr, signals, computeds);
                elements.push(PlannedElement {
                    id: dyn_id,
                    parent_id,
                    kind: PlannedNodeKind::DynamicText(DynamicTextSlot { state_slot: slot, trigger_mask: mask, expr: expr.clone() }),
                });
                assert(planned_view(elements@) =~= e0 + plan_node(node@, parent_id as nat, id0, slot0, signals@, comps).0);
                Ok(())
            },
        }
    }
}

impl Clone for DynamicTextSlot {
    fn clone(&self) -> (r: Self)
        ensures
            r@ == self@,
    {
        DynamicTextSlot { state_slot: self.state_slot, trigger_mask: self.trigger_mask, expr: self.expr.clone() }
    }
}

fn clone_pairs(v: &Vec<(String, String)>) -> (r: Vec<(String, String)>)
    ensures
        pairs_view(r@) == pairs_view(v@),
{
    let mut r: Vec<(String, String)> = Vec::new();
    let mut i: usize = 0;
    while i < v.len()
        invariant
            i <= v@.len(),
            r@.len() == i,
            forall|j: int| 0 <= j < i ==> (#[trigger] r@[j]).0@ == v@[j].0@ && r@[j].1@ == v@[j].1@,
        decreases v@.len() - i,
    {
        r.push((v[i].0.clone(), v[i].1.clone()));
        i += 1;
    }
    assert(pairs_view(r@) =~= pairs_view(v@));
    r
}

impl Clone for PlannedNodeKind {
    fn clone(&self) -> (r: Self)
        ensures
            r@ == self@,
    {
        match self {
            PlannedNodeKind::Element { tag, static_attrs, events, static_text } => PlannedNodeKind::Element {
                tag: tag.clone(),
                static_attrs: clone_pairs(static_attrs),
                events: clone_pairs(events),
                static_text: match static_text {
                    Some(t) => Some(t.clone()),
                    None => None,
                },
            },
            PlannedNodeKind::StaticText(t) => PlannedNodeKind::StaticText(t.clone()),
            PlannedNodeKind::DynamicText(d) => PlannedNodeKind::DynamicText(d.clone()),
        }
    }
}

impl Clone for PlannedElement {
    fn clone(&self) -> (r: Self)
        ensures
            r@ == self@,
    {
        PlannedElement { id: self.id, parent_id: self.parent_id, kind: self.kind.clone() }
    }
}

/// The reactivity plan of a component.
#[derive(Debug)]
pub struct ComponentPlan {
    pub name: String,
    pub is_exported: bool,
    pub signals: Vec<SignalInfo>,
    pub computeds: Vec<ComputedInfo>,
    pub methods: Vec<FnDecl>,
    pub elements: Vec<PlannedElement>,
    pub dynamic_text_slots: usize,
    pub signal_name_to_id: NameMap,
    pub computed_name_to_id: NameMap,
}

pub struct ComponentPlanV {
    pub name: Seq<char>,
    pub is_exported: bool,
    pub signals: Seq<SignalInfoV>,
    pub computeds: Seq<ComputedInfoV>,
    pub methods: Seq<FnDeclV>,
    pub elements: Seq<PlannedElementV>,
    pub dynamic_text_slots: nat,
    pub signal_name_to_id: Seq<(Seq<char>, usize)>,
    pub computed_name_to_id: Seq<(Seq<char>, usize)>,
}

impl View for ComponentPlan {
    type V = ComponentPlanV;

    open spec fn view(&self) -> ComponentPlanV {
        ComponentPlanV {
            name: self.name@,
            is_exported: self.is_exported,
            signals: Seq::new(self.signals@.len(), |i: int| self.signals@[i]@),
            computeds: infos_view(self.computeds@),
            methods: fns_view(self.methods@),
            elements: planned_view(self.elements@),
            dynamic_text_slots: self.dynamic_text_slots as nat,
            signal_name_to_id: self.signal_name_to_id@,
            computed_name_to_id: self.computed_name_to_id@,
        }
    }
}

impl Clone for ComponentPlan {
    fn clone(&self) -> (r: Self)
        ensures
            r@ == self@,
    {
        let mut signals: Vec<SignalInfo> = Vec::new();
        let mut i: usize = 0;
        while i < self.signals.len()
            invariant
                i <= self.signals@.len(),
                signals@.len() == i,
                forall|j: int| 0 <= j < i ==> (#[trigger] signals@[j])@ == self.signals@[j]@,
            decreases self.signals@.len() - i,
        {
            signals.push(self.signals[i].clone());
            i += 1;
        }
        let mut computeds: Vec<ComputedInfo> = Vec::new();
        let mut i: usize = 0;
        while i < self.computeds.len()
            invariant
                i <= self.computeds@.len(),
                computeds@.len() == i,
                forall|j: int| 0 <= j < i ==> (#[trigger] computeds@[j])@ == self.computeds@[j]@,
            decreases self.computeds@.len() - i,
        {
            computeds.push(self.computeds[i].clone());
            i += 1;
        }
        let mut elements: Vec<PlannedElement> = Vec::new();
        let mut i: usize = 0;
        while i < self.elements.len()
            invariant
                i <= self.elements@.len(),
                elements@.len() == i,
                forall|j: int| 0 <= j < i ==> (#[trigger] elements@[j])@ == self.elements@[j]@,
            decreases self.elements@.len() - i,
        {
            elements.push(self.elements[i].clone());
            i += 1;
        }
        let r = ComponentPlan {
            name: self.name.clone(),
            is_exported: self.is_exported,
            signals,
            computeds,
            methods: clone_fns(&self.methods),
            elements,
            dynamic_text_slots: self.dynamic_text_slots,
            signal_name_to_id: self.signal_name_to_id.copy(),
            computed_name_to_id: self.computed_name_to_id.copy(),
        };
        assert(r@.signals =~= self@.signals);
        assert(r@.computeds =~= self@.computeds);
        assert(r@.elements =~= self@.elements);
        r
    }
}

/// The message for a component with more signals than mask bits.
pub open spec fn too_many_message(name: Seq<char>) -> Seq<char> {
    "Too many signals in component "@ + name + " (max 32)"@
}

/// The dependency masks of the first `k` computeds, in order; the first error stops it.
pub open spec fn computed_masks(
    cs: Seq<ComputedDeclV>,
    sigmap: Seq<(Seq<char>, usize)>,
    compmap: Seq<(Seq<char>, usize)>,
    all: Seq<ExprV>,
    k: nat,
) -> Result<Seq<u32>, Seq<char>>
    decreases k,
{
    if k == 0 {
        Ok(Seq::empty())
    } else {
        match computed_masks(cs, sigmap, compmap, all, (k - 1) as nat) {
            Err(x) => Err(x),
            Ok(ms) => match mask_of(cs[k - 1].expr, sigmap, compmap, all, Seq::empty()) {
                Err(x) => Err(x),
                Ok(m) => Ok(ms.push(m)),
            },
        }
    }
}

/// The expressions of the computeds of a component.
pub open spec fn decl_exprs(f: ComponentDeclV) -> Seq<ExprV> {
    Seq::new(f.computeds.len(), |i: int| f.computeds[i].expr)
}

/// The signal map of a component: each signal's name with its index.
pub open spec fn signal_map(f: ComponentDeclV) -> Seq<(Seq<char>, usize)> {
    Seq::new(f.signals.len(), |i: int| (f.signals[i].name, i as usize))
}

/// The computed map of a component: each computed's name with its index.
pub open spec fn computed_map(f: ComponentDeclV) -> Seq<(Seq<char>, usize)> {
    Seq::new(f.computeds.len(), |i: int| (f.computeds[i].name, i as usize))
}

/// The plan of a component: on its folded form, signal `i` gets id `i` and
/// bit `1 << i` (more than 32 signals is an error); computed `i` gets id `i`
/// and the mask of the signals it depends on (a dependency cycle is an
/// error); the render template is planned from node id 1 and slot 0 under
/// the mount root 0.
pub open spec fn analysis_of(c: ComponentDeclV) -> Result<ComponentPlanV, Seq<char>> {
    let f = folded_component(c);
    if f.signals.len() > 32 {
        Err(too_many_message(f.name))
    } else {
        let sigmap = signal_map(f);
        let compmap = computed_map(f);
        let all = decl_exprs(f);
        match computed_masks(f.computeds, sigmap, compmap, all, f.computeds.len()) {
            Err(name) => Err(cyclic_message(name)),
            Ok(masks) => {
                let signals = Seq::new(
                    f.signals.len(),
                    |i: int| SignalInfoV {
                        id: i as usize,
                        mask: 1u32 << (i as u32),
                        name: f.signals[i].name,
                        type_ann: f.signals[i].type_ann,
                        init_expr: f.signals[i].init_expr,
                    },
                );
                let infos = Seq::new(
                    f.computeds.len(),
                    |i: int| ComputedInfoV {
                        id: i as usize,
                        name: f.computeds[i].name,
                        type_ann: f.computeds[i].type_ann,
                        expr: f.computeds[i].expr,
                        mask: masks[i],
                    },
                );
                let (elements, slots) = match f.render {
                    Some(r) => {
                        let p = plan_node(r.root, 0, 1, 0, sigmap, infos);
                        (p.0, p.2)
                    },
                    None => (Seq::empty(), 0),
                };
                Ok(
                    ComponentPlanV {
                        name: f.name,
                        is_exported: f.is_exported,
                        signals,
                        computeds: infos,
                        methods: f.methods,
                        elements,
                        dynamic_text_slots: slots,
                        signal_name_to_id: sigmap,
                        computed_name_to_id: compmap,
                    },
                )
            },
        }
    }
}

/// The mask has no bit at or past bit `n` (any mask, for `n` of 32 or more).
pub open spec fn bits_below(m: u32, n: nat) -> bool {
    n >= 32 || m < (1u32 << (n as u32))
}

proof fn lemma_zero_below(n: nat)
    ensures
        bits_below(0, n),
{
    if n < 32 {
        let b = n as u32;
        assert(b < 32 ==> 0u32 < (1u32 << b)) by (bit_vector);
    }
}

proof fn lemma_bit_below(id: usize, n: nat)
    requires
        id < n,
    ensures
        bits_below(1u32 << (id as u32), n),
{
    if n < 32 {
        let a = id as u32;
        let b = n as u32;
        assert(a < b && b < 32 ==> (1u32 << a) < (1u32 << b)) by (bit_vector);
    }
}

proof fn lemma_or_below(x: u32, y: u32, n: nat)
    requires
        bits_below(x, n),
        bits_below(y, n),
    ensures
        bits_below(x | y, n),
{
    if n < 32 {
        let b = n as u32;
        assert(x < (1u32 << b) && y < (1u32 << b) && b < 32 ==> (x | y) < (1u32 << b)) by (bit_vector);
    }
}

/// Every mask that an expression reads has only bits of ids below `n`, when
/// the signal ids are.
proof fn lemma_mask_bits(
    e: ExprV,
    sigs: Seq<(Seq<char>, usize)>,
    comps: Seq<(Seq<char>, usize)>,
    all: Seq<ExprV>,
    path: Seq<Seq<char>>,
    n: nat,
)
    requires
        ids_below(sigs, n),
    ensures
        mask_of(e, sigs, comps, all, path) matches Ok(m) ==> bits_below(m, n),
    decreases unvisited(comps, path), e, 0nat,
{
    match e {
        ExprV::Ident(name, _) => match lookup_name(sigs, name) {
            Some(id) => {
                lemma_lookup_in(sigs, name, n);
                lemma_bit_below(id, n);
            },
            None => match lookup_name(comps, name) {
                Some(cid) => {
                    if !path.contains(name) {
                        lemma_unvisited_mono(comps, path, name);
                        lemma_mask_bits(all[cid as int], sigs, comps, all, path.push(name), n);
                    }
                },
                None => {
                    lemma_zero_below(n);
                },
            },
        },
        ExprV::Binary { left, right, .. } => {
            lemma_mask_bits(*left, sigs, comps, all, path, n);
            lemma_mask_bits(*right, sigs, comps, all, path, n);
            if let Ok(m1) = mask_of(*left, sigs, comps, all, path) {
                if let Ok(m2) = mask_of(*right, sigs, comps, all, path) {
                    lemma_or_below(m1, m2, n);
                }
            }
        },
        ExprV::Unary { expr, .. } => {
            lemma_mask_bits(*expr, sigs, comps, all, path, n);
        },
        ExprV::Call { args, .. } => {
            lemma_mask_args_bits(args, sigs, comps, all, path, n);
        },
        ExprV::MemberAccess { object, .. } => {
            lemma_mask_bits(*object, sigs, comps, all, path, n);
        },
        _ => {
            lemma_zero_below(n);
        },
    }
}

proof fn lemma_mask_args_bits(
    args: Seq<ExprV>,
    sigs: Seq<(Seq<char>, usize)>,
    comps: Seq<(Seq<char>, usize)>,
    all: Seq<ExprV>,
    path: Seq<Seq<char>>,
    n: nat,
)
    requires
        ids_below(sigs, n),
    ensures
        mask_of_args(args, sigs, comps, all, path) matches Ok(m) ==> bits_below(m, n),
    decreases unvisited(comps, path), args, 1nat,
{
    if args.len() == 0 {
        lemma_zero_below(n);
    } else {
        assert(decreases_to!(args => args[args.len() - 1]));
        assert(decreases_to!(args => args.subrange(0, args.len() - 1)));
        lemma_mask_args_bits(args.subrange(0, args.len() - 1), sigs, comps, all, path, n);
        lemma_mask_bits(args[args.len() - 1], sigs, comps, all, path, n);
        if let Ok(m) = mask_of_args(args.subrange(0, args.len() - 1), sigs, comps, all, path) {
            if let Ok(x) = mask_of(args[args.len() - 1], sigs, comps, all, path) {
                lemma_or_below(m, x, n);
            }
        }
    }
}

proof fn lemma_computed_masks_bits(
    cs: Seq<ComputedDeclV>,
    sigmap: Seq<(Seq<char>, usize)>,
    compmap: Seq<(Seq<char>, usize)>,
    all: Seq<ExprV>,
    k: nat,
    n: nat,
)
    requires
        ids_below(sigmap, n),
    ensures
        computed_masks(cs, sigmap, compmap, all, k) matches Ok(ms) ==> {
            &&& ms.len() == k
            &&& forall|i: int| 0 <= i < k ==> bits_below(#[trigger] ms[i], n)
        },
    decreases k,
{
    if k > 0 {
        lemma_computed_masks_bits(cs, sigmap, compmap, all, (k - 1) as nat, n);
        lemma_mask_bits(cs[k - 1].expr, sigmap, compmap, all, Seq::empty(), n);
    }
}

/// The masks of a list of computeds have only bits below `n`.
pub open spec fn masks_below(comps: Seq<ComputedInfoV>, n: nat) -> bool {
    forall|j: int| 0 <= j < comps.len() ==> bits_below((#[trigger] comps[j]).mask, n)
}

proof fn lemma_first_computed_below(comps: Seq<ComputedInfoV>, name: Seq<char>, n: nat)
    requires
        masks_below(comps, n),
    ensures
        first_computed(comps, name) matches Some(c) ==> bits_below(c.mask, n),
    decreases comps.len(),
{
    if comps.len() > 0 && comps[0].name != name {
        assert forall|j: int| 0 <= j < comps.drop_first().len() implies bits_below(
            (#[trigger] comps.drop_first()[j]).mask,
            n,
        ) by {
            assert(comps.drop_first()[j] == comps[j + 1]);
        }
        lemma_first_computed_below(comps.drop_first(), name, n);
    } else if comps.len() > 0 {
        assert(bits_below(comps[0].mask, n));
    }
}

proof fn lemma_mask_for_bits(e: ExprV, sigs: Seq<(Seq<char>, usize)>, comps: Seq<ComputedInfoV>, n: nat)
    requires
        ids_below(sigs, n),
        masks_below(comps, n),
    ensures
        bits_below(mask_for(e, sigs, comps), n),
    decreases e,
{
    match e {
        ExprV::Ident(name, _) => match lookup_name(sigs, name) {
            Some(id) => {
                lemma_lookup_in(sigs, name, n);
                lemma_bit_below(id, n);
            },
            None => {
                lemma_first_computed_below(comps, name, n);
                lemma_zero_below(n);
            },
        },
        ExprV::Binary { left, right, .. } => {
            lemma_mask_for_bits(*left, sigs, comps, n);
            lemma_mask_for_bits(*right, sigs, comps, n);
            lemma_or_below(mask_for(*left, sigs, comps), mask_for(*right, sigs, comps), n);
        },
        ExprV::Unary { expr, .. } => {
            lemma_mask_for_bits(*expr, sigs, comps, n);
        },
        ExprV::Call { args, .. } => {
            lemma_mask_for_args_bits(args, sigs, comps, n);
        },
        ExprV::MemberAccess { object, .. } => {
            lemma_mask_for_bits(*object, sigs, comps, n);
        },
        _ => {
            lemma_zero_below(n);
        },
    }
}

proof fn lemma_mask_for_args_bits(args: Seq<ExprV>, sigs: Seq<(Seq<char>, usize)>, comps: Seq<ComputedInfoV>, n: nat)
    requires
        ids_below(sigs, n),
        masks_below(comps, n),
    ensures
        bits_below(mask_for_args(args, sigs, comps), n),
    decreases args,
{
    if args.len() == 0 {
        lemma_zero_below(n);
    } else {
        assert(decreases_to!(args => args[args.len() - 1]));
        assert(decreases_to!(args => args.subrange(0, args.len() - 1)));
        lemma_mask_for_args_bits(args.subrange(0, args.len() - 1), sigs, comps, n);
        lemma_mask_for_bits(args[args.len() - 1], sigs, comps, n);
        lemma_or_below(
            mask_for_args(args.subrange(0, args.len() - 1), sigs, comps),
            mask_for(args[args.len() - 1], sigs, comps),
            n,
        );
    }
}

/// Every dynamic text slot of a list of planned nodes has a trigger mask
/// with only bits below `n`.
pub open spec fn triggers_below(es: Seq<PlannedElementV>, n: nat) -> bool {
    forall|k: int|
        0 <= k < es.len() ==> ((#[trigger] es[k]).kind matches PlannedNodeKindV::DynamicText(slot) ==> bits_below(
            slot.trigger_mask,
            n,
        ))
}

proof fn lemma_plan_triggers(
    nd: TemplateNodeV,
    parent: nat,
    next_id: nat,
    next_slot: nat,
    sigs: Seq<(Seq<char>, usize)>,
    comps: Seq<ComputedInfoV>,
    n: nat,
)
    requires
        ids_below(sigs, n),
        masks_below(comps, n),
    ensures
        triggers_below(plan_node(nd, parent, next_id, next_slot, sigs, comps).0, n),
    decreases nd,
{
    match nd {
        TemplateNodeV::Element(el) => {
            if has_dynamic(el.children) || has_element(el.children) {
                let r = plan_node(nd, parent, next_id, next_slot, sigs, comps);
                let c = plan_children(el.children, next_id, next_id + 1, next_slot, sigs, comps);
                lemma_children_triggers(el.children, next_id, next_id + 1, next_slot, sigs, comps, n);
                assert forall|k: int| 0 <= k < r.0.len() implies ((#[trigger] r.0[k]).kind matches PlannedNodeKindV::DynamicText(
                    slot,
                ) ==> bits_below(slot.trigger_mask, n)) by {
                    if k > 0 {
                        assert(r.0[k] == c.0[k - 1]);
                    }
                }
            }
        },
        TemplateNodeV::DynamicExpr(e, _) => {
            lemma_mask_for_bits(e, sigs, comps, n);
        },
        _ => {},
    }
}

proof fn lemma_children_triggers(
    cs: Seq<TemplateNodeV>,
    parent: nat,
    next_id: nat,
    next_slot: nat,
    sigs: Seq<(Seq<char>, usize)>,
    comps: Seq<ComputedInfoV>,
    n: nat,
)
    requires
        ids_below(sigs, n),
        masks_below(comps, n),
    ensures
        triggers_below(plan_children(cs, parent, next_id, next_slot, sigs, comps).0, n),
    decreases cs,
{
    if cs.len() > 0 {
        assert(decreases_to!(cs => cs[cs.len() - 1]));
        assert(decreases_to!(cs => cs.subrange(0, cs.len() - 1)));
        let (a, i1, s1) = plan_children(cs.subrange(0, cs.len() - 1), parent, next_id, next_slot, sigs, comps);
        lemma_children_triggers(cs.subrange(0, cs.len() - 1), parent, next_id, next_slot, sigs, comps, n);
        lemma_plan_triggers(cs[cs.len() - 1], parent, i1, s1, sigs, comps, n);
        let b = plan_node(cs[cs.len() - 1], parent, i1, s1, sigs, comps).0;
        assert forall|k: int| 0 <= k < (a + b).len() implies ((#[trigger] (a + b)[k]).kind matches PlannedNodeKindV::DynamicText(
            slot,
        ) ==> bits_below(slot.trigger_mask, n)) by {
            if k < a.len() {
                assert((a + b)[k] == a[k]);
            } else {
                assert((a + b)[k] == b[k - a.len()]);
            }
        }
    }
}

/// Law: in a plan, signal `i` has the mask `1 << i`, the masks of two
/// signals share no bit, and the mask of every computed and the trigger
/// mask of every dynamic text slot have only bits of the component's
/// signals; so setting a signal's bit in the dirty mask marks exactly that
/// signal.
pub proof fn law_masks_are_signal_bits(c: ComponentDeclV)
    ensures
        analysis_of(c) matches Ok(p) ==> {
            &&& p.signals.len() <= 32
            &&& forall|i: int| 0 <= i < p.signals.len() ==> (#[trigger] p.signals[i]).mask == 1u32 << (i as u32)
            &&& forall|i: int, j: int|
                0 <= i < j < p.signals.len() ==> #[trigger] p.signals[i].mask & #[trigger] p.signals[j].mask == 0
            &&& forall|j: int|
                0 <= j < p.computeds.len() ==> bits_below((#[trigger] p.computeds[j]).mask, p.signals.len())
            &&& triggers_below(p.elements, p.signals.len())
        },
{
    if let Ok(p) = analysis_of(c) {
        let f = folded_component(c);
        let n = f.signals.len();
        let sigmap = signal_map(f);
        assert(ids_below(sigmap, n));
        lemma_computed_masks_bits(f.computeds, sigmap, computed_map(f), decl_exprs(f), f.computeds.len(), n);
        assert(masks_below(p.computeds, n));
        if let Some(r) = f.render {
            lemma_plan_triggers(r.root, 0, 1, 0, sigmap, p.computeds, n);
        }
        assert forall|i: int, j: int| 0 <= i < j < p.signals.len() implies #[trigger] p.signals[i].mask
            & #[trigger] p.signals[j].mask == 0 by {
            let a = i as u32;
            let b = j as u32;
            assert(a < b && b < 32 ==> (1u32 << a) & (1u32 << b) == 0) by (bit_vector);
        }
    }
}

/// The expression reads the name `x`: `x` stands in it as an identifier, at
/// any depth under operators, call arguments and member accesses.
pub open spec fn reads_name(e: ExprV, x: Seq<char>) -> bool
    decreases e,
{
    match e {
        ExprV::Ident(n, _) => n == x,
        ExprV::Binary { left, right, .. } => reads_name(*left, x) || reads_name(*right, x),
        ExprV::Unary { expr, .. } => reads_name(*expr, x),
        ExprV::Call { args, .. } => exists|i: int| 0 <= i < args.len() && reads_name(#[trigger] args[i], x),
        ExprV::MemberAccess { object, .. } => reads_name(*object, x),
        _ => false,
    }
}

proof fn lemma_bit_or(m1: u32, m2: u32, a: u32)
    requires
        a < 32,
        m1 & (1u32 << a) != 0 || m2 & (1u32 << a) != 0,
    ensures
        (m1 | m2) & (1u32 << a) != 0,
{
    assert(a < 32 && (m1 & (1u32 << a) != 0 || m2 & (1u32 << a) != 0) ==> (m1 | m2) & (1u32 << a) != 0)
        by (bit_vector);
}

/// A mask that follows an expression has the bit of every signal that the
/// expression reads.
proof fn lemma_mask_has_read(
    e: ExprV,
    sigs: Seq<(Seq<char>, usize)>,
    comps: Seq<(Seq<char>, usize)>,
    all: Seq<ExprV>,
    path: Seq<Seq<char>>,
    x: Seq<char>,
    id: usize,
)
    requires
        reads_name(e, x),
        lookup_name(sigs, x) == Some(id),
        id < 32,
    ensures
        mask_of(e, sigs, comps, all, path) matches Ok(m) ==> m & (1u32 << (id as u32)) != 0,
    decreases e, 0nat,
{
    let a = id as u32;
    match e {
        ExprV::Ident(name, _) => {
            assert(a < 32 ==> (1u32 << a) & (1u32 << a) != 0) by (bit_vector);
        },
        ExprV::Binary { left, right, .. } => {
            if reads_name(*left, x) {
                lemma_mask_has_read(*left, sigs, comps, all, path, x, id);
            } else {
                lemma_mask_has_read(*right, sigs, comps, all, path, x, id);
            }
            if let Ok(m1) = mask_of(*left, sigs, comps, all, path) {
                if let Ok(m2) = mask_of(*right, sigs, comps, all, path) {
                    lemma_bit_or(m1, m2, a);
                }
            }
        },
        ExprV::Unary { expr, .. } => {
            lemma_mask_has_read(*expr, sigs, comps, all, path, x, id);
        },
        ExprV::Call { args, .. } => {
            lemma_mask_args_has_read(args, sigs, comps, all, path, x, id);
        },
        ExprV::MemberAccess { object, .. } => {
            lemma_mask_has_read(*object, sigs, comps, all, path, x, id);
        },
        _ => {},
    }
}

proof fn lemma_mask_args_has_read(
    args: Seq<ExprV>,
    sigs: Seq<(Seq<char>, usize)>,
    comps: Seq<(Seq<char>, usize)>,
    all: Seq<ExprV>,
    path: Seq<Seq<char>>,
    x: Seq<char>,
    id: usize,
)
    requires
        exists|i: int| 0 <= i < args.len() && reads_name(#[trigger] args[i], x),
        lookup_name(sigs, x) == Some(id),
        id < 32,
    ensures
        mask_of_args(args, sigs, comps, all, path) matches Ok(m) ==> m & (1u32 << (id as u32)) != 0,
    decreases args, 1nat,
{
    let n = args.len() - 1;
    let pre = args.subrange(0, n);
    assert(decreases_to!(args => args[n]));
    assert(decreases_to!(args => pre));
    let i = choose|i: int| 0 <= i < args.len() && reads_name(#[trigger] args[i], x);
    if i == n {
        lemma_mask_has_read(args[n], sigs, comps, all, path, x, id);
    } else {
        assert(pre[i] == args[i]);
        lemma_mask_args_has_read(pre, sigs, comps, all, path, x, id);
    }
    if let Ok(m1) = mask_of_args(pre, sigs, comps, all, path) {
        if let Ok(m2) = mask_of(args[n], sigs, comps, all, path) {
            lemma_bit_or(m1, m2, id as u32);
        }
    }
}

/// The masks that `computed_masks` gives are those of the computeds'
/// expressions, in order.
proof fn lemma_computed_masks_each(
    cs: Seq<ComputedDeclV>,
    sigmap: Seq<(Seq<char>, usize)>,
    compmap: Seq<(Seq<char>, usize)>,
    all: Seq<ExprV>,
    k: nat,
)
    ensures
        computed_masks(cs, sigmap, compmap, all, k) matches Ok(ms) ==> {
            &&& ms.len() == k
            &&& forall|i: int| 0 <= i < k ==> mask_of(#[trigger] cs[i].expr, sigmap, compmap, all, Seq::empty())
                == Ok::<u32, Seq<char>>(ms[i])
        },
    decreases k,
{
    if k > 0 {
        lemma_computed_masks_each(cs, sigmap, compmap, all, (k - 1) as nat);
    }
}

/// Law: a computed depends on every signal that its expression reads: in a
/// plan, if computed `j`'s expression reads signal `x` (at any depth, under
/// operators, call arguments or member accesses), its mask has `x`'s bit.
pub proof fn law_computed_mask_has_read_signals(c: ComponentDeclV)
    ensures
        analysis_of(c) matches Ok(p) ==> forall|j: int, x: Seq<char>|
            0 <= j < p.computeds.len() && #[trigger] reads_name(p.computeds[j].expr, x) ==> (
            lookup_name(p.signal_name_to_id, x) matches Some(id) ==> p.computeds[j].mask & (1u32 << (id as u32))
                != 0),
{
    if let Ok(p) = analysis_of(c) {
        let f = folded_component(c);
        let n = f.signals.len();
        let sigmap = signal_map(f);
        let compmap = computed_map(f);
        let all = decl_exprs(f);
        assert(ids_below(sigmap, n));
        lemma_computed_masks_each(f.computeds, sigmap, compmap, all, f.computeds.len());
        assert forall|j: int, x: Seq<char>|
            0 <= j < p.computeds.len() && #[trigger] reads_name(p.computeds[j].expr, x) implies (
            lookup_name(p.signal_name_to_id, x) matches Some(id) ==> p.computeds[j].mask & (1u32 << (id as u32))
                != 0) by {
            if let Some(id) = lookup_name(sigmap, x) {
                lemma_lookup_in(sigmap, x, n);
                assert(mask_of(f.computeds[j].expr, sigmap, compmap, all, Seq::empty()) == Ok::<u32, Seq<char>>(
                    p.computeds[j].mask,
                ));
                lemma_mask_has_read(f.computeds[j].expr, sigmap, compmap, all, Seq::empty(), x, id);
            }
        }
    }
}

/// The render template of a component is small enough to number its nodes.
pub open spec fn template_fits(c: ComponentDeclV) -> bool {
    match folded_component(c).render {
        Some(r) => node_count(r.root) < usize::MAX,
        None => true,
    }
}

impl ReactivityAnalyzer {
    /// Whether the render template of a component is small enough to number
    /// its nodes (see `template_fits`).
    pub fn template_fits_check(comp: &ComponentDecl) -> (b: bool)
        ensures
            b == template_fits(comp@),
    {
        match &comp.render {
            Some(r) => {
                proof { lemma_folded_count(r.root@); }
                count_nodes(&r.root, usize::MAX - 1).is_some()
            },
            None => true,
        }
    }

    /// Folds the component, then plans its signals, computeds and DOM nodes.
    pub fn analyze_component(comp: &ComponentDecl) -> (r: Result<ComponentPlan, String>)
        requires
            component_folds_safely(comp@),
            template_fits(comp@),
        ensures
            match analysis_of(comp@) {
                Ok(p) => r is Ok && r->Ok_0@ == p,
                Err(msg) => r is Err && r->Err_0@ == msg,
            },
    {
        let ghost c0 = comp@;
        let opt_comp = AstOptimizer::optimize_component(comp.clone());
        let oc = &opt_comp;
        let ghost f = oc@;
        assert(f == folded_component(c0));

        let mut signals: Vec<SignalInfo> = Vec::new();
        let mut signal_name_to_id = NameMap::new();
        let mut id: usize = 0;
        while id < oc.signals.len()
            invariant
                f == oc@,
                c0 == comp@,
                f == folded_component(c0),
                id <= oc.signals@.len(),
                id <= 32,
                signals@.len() == id,
                signal_name_to_id@ == signal_map(f).subrange(0, id as int),
                forall|j: int| 0 <= j < id ==> (#[trigger] signals@[j])@ == (SignalInfoV {
                    id: j as usize,
                    mask: 1u32 << (j as u32),
                    name: f.signals[j].name,
                    type_ann: f.signals[j].type_ann,
                    init_expr: f.signals[j].init_expr,
                }),
            decreases oc.signals@.len() - id,
        {
            if id >= 32 {
                let mut msg = string_of("Too many signals in component ");
                push_str(&mut msg, oc.name.as_str());
                push_str(&mut msg, " (max 32)");
                assert(analysis_of(c0) == Err::<ComponentPlanV, Seq<char>>(msg@));
                return Err(msg);
            }
            let sig = &oc.signals[id];
            assert(f.signals[id as int] == sig@);
            let mask = 1u32 << (id as u32);
            signal_name_to_id.insert(sig.name.clone(), id);
            assert(signal_name_to_id@ =~= signal_map(f).subrange(0, id + 1));
            signals.push(SignalInfo {
                id,
                mask,
                name: sig.name.clone(),
                type_ann: sig.type_ann.clone(),
                init_expr: sig.init_expr.clone(),
            });
            id += 1;
        }
        assert(signal_name_to_id@ =~= signal_map(f));

        // Analyze computeds and determine signal dependency masks
        let mut computed_name_to_id = NameMap::new();
        let mut id: usize = 0;
        while id < oc.computeds.len()
            invariant
                f == oc@,
                c0 == comp@,
                f.signals.len() <= 32,
                id <= oc.computeds@.len(),
                computed_name_to_id@ == computed_map(f).subrange(0, id as int),
            decreases oc.computeds@.len() - id,
        {
            computed_name_to_id.insert(oc.computeds[id].name.clone(), id);
            assert(computed_name_to_id@ =~= computed_map(f).subrange(0, id + 1));
            id += 1;
        }
        assert(computed_name_to_id@ =~= computed_map(f));
        let ghost all = decl_exprs(f);
        assert(computed_exprs(oc.computeds@) =~= all);
        assert(ids_below(signal_name_to_id@, 32));
        assert(ids_below(computed_name_to_id@, oc.computeds@.len() as nat));

        let mut computeds: Vec<ComputedInfo> = Vec::new();
        let mut id: usize = 0;
        while id < oc.computeds.len()
            invariant
                f == oc@,
                c0 == comp@,
                f == folded_component(c0),
                f.signals.len() <= 32,
                id <= oc.computeds@.len(),
                signal_name_to_id@ == signal_map(f),
                computed_name_to_id@ == computed_map(f),
                all == computed_exprs(oc.computeds@),
                all == decl_exprs(f),
                ids_below(signal_name_to_id@, 32),
                ids_below(computed_name_to_id@, oc.computeds@.len() as nat),
                computeds@.len() == id,
                computed_masks(f.computeds, signal_map(f), computed_map(f), all, id as nat) is Ok,
                computed_masks(f.computeds, signal_map(f), computed_map(f), all, id as nat)->Ok_0.len() == id,
                forall|j: int| 0 <= j < id ==> (#[trigger] computeds@[j])@ == (ComputedInfoV {
                    id: j as usize,
                    name: f.computeds[j].name,
                    type_ann: f.computeds[j].type_ann,
                    expr: f.computeds[j].expr,
                    mask: computed_masks(f.computeds, signal_map(f), computed_map(f), all, id as nat)->Ok_0[j],
                }),
            decreases oc.computeds@.len() - id,
        {
            let comp_decl = &oc.computeds[id];
            assert(f.computeds[id as int] == comp_decl@);
            let mut visited: Vec<String> = Vec::new();
            assert(path_view(visited@) =~= Seq::<Seq<char>>::empty());
            let ghost ms0 = computed_masks(f.computeds, signal_map(f), computed_map(f), all, id as nat)->Ok_0;
            assert(f.computeds[id as int].expr == comp_decl.expr@);
            let mask = match Self::calculate_expr_mask(
                &comp_decl.expr,
                &signal_name_to_id,
                &computed_name_to_id,
                &oc.computeds,
                &mut visited,
            ) {
                Ok(m) => m,
                Err(msg) => {
                    proof {
                        let mo = mask_of(f.computeds[id as int].expr, signal_map(f), computed_map(f), all, Seq::empty());
                        assert(mo is Err);
                        assert(msg@ == cyclic_message(mo->Err_0));
                        assert(computed_masks(f.computeds, signal_map(f), computed_map(f), all, (id + 1) as nat) == Err::<Seq<u32>, Seq<char>>(mo->Err_0));
                        lemma_masks_error(f.computeds, signal_map(f), computed_map(f), all, (id + 1) as nat, f.computeds.len());
                        assert(f.signals.len() <= 32);
                        assert(computed_masks(f.computeds, signal_map(f), computed_map(f), decl_exprs(f), f.computeds.len()) == Err::<Seq<u32>, Seq<char>>(mo->Err_0));
                        assert(folded_component(c0).signals.len() <= 32);
                        assert(analysis_of(c0) is Err);
                        assert(analysis_of(c0) == Err::<ComponentPlanV, Seq<char>>(msg@));
                    }
                    return Err(msg);
                },
            };
            computeds.push(ComputedInfo {
                id,
                name: comp_decl.name.clone(),
                type_ann: comp_decl.type_ann.clone(),
                expr: comp_decl.expr.clone(),
                mask,
            });
            proof {
                let ms1 = computed_masks(f.computeds, signal_map(f), computed_map(f), all, (id + 1) as nat)->Ok_0;
                assert(ms1 == ms0.push(mask));
                assert forall|j: int| 0 <= j < id + 1 implies (#[trigger] computeds@[j])@ == (ComputedInfoV {
                    id: j as usize,
                    name: f.computeds[j].name,
                    type_ann: f.computeds[j].type_ann,
                    expr: f.computeds[j].expr,
                    mask: ms1[j],
                }) by {
                    if j < id {
                        assert(ms1[j] == ms0[j]);
                    }
                }
            }
            id += 1;
        }

        // Plan elements and dynamic slot allocations
        let mut elements: Vec<PlannedElement> = Vec::new();
        let mut dynamic_text_slots: usize = 0;
        if let Some(render) = &oc.render {
            let mut next_elem_id: usize = 1;
            let _ = Self::plan_template_node(
                &render.root,
                0,
                &mut next_elem_id,
                &mut dynamic_text_slots,
                &signal_name_to_id,
                &computeds,
                &mut elements,
            );
        }
        let r = ComponentPlan {
            name: oc.name.clone(),
            is_exported: oc.is_exported,
            signals,
            computeds,
            methods: clone_fns(&oc.methods),
            elements,
            dynamic_text_slots,
            signal_name_to_id,
            computed_name_to_id,
        };
        proof {
            assert(f.signals.len() <= 32);
            assert(analysis_of(c0) is Ok);
            let p = analysis_of(c0)->Ok_0;
            assert(r@.signals =~= p.signals);
            assert(r@.computeds =~= p.computeds);
            assert(r@.elements =~= p.elements);
        }
        Ok(r)
    }
}

/// An error among the first `k` masks is the error of all of them.
proof fn lemma_masks_error(
    cs: Seq<ComputedDeclV>,
    sigmap: Seq<(Seq<char>, usize)>,
    compmap: Seq<(Seq<char>, usize)>,
    all: Seq<ExprV>,
    k: nat,
    n: nat,
)
    requires
        k <= n,
        computed_masks(cs, sigmap, compmap, all, k) is Err,
    ensures
        computed_masks(cs, sigmap, compmap, all, n) == computed_masks(cs, sigmap, compmap, all, k),
    decreases n - k,
{
    if k < n {
        lemma_masks_error(cs, sigmap, compmap, all, k + 1, n);
    }
}

} // verus!

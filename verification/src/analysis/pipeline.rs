//! The build step of a program: its extern blocks, in order, and the plan of
//! its last component.

use vstd::prelude::*;
use crate::analysis::optimizer::component_folds_safely;
use crate::analysis::reactivity::{analysis_of, template_fits, ComponentPlan, ComponentPlanV, ReactivityAnalyzer};
use crate::syntax::ast::{blocks_view, ExternBlock, ExternBlockV, Program, TopLevelItem, TopLevelItemV};

verus! {

/// Why a program gives no module to build.
pub enum BuildError {
    /// The analysis of the named component failed with the message.
    Analysis { component: String, message: String },
    /// The program has no component.
    NoComponent,
}

/// What the build step makes of the first `n` items: the extern blocks so
/// far and the plan of the last component so far, or the name of the first
/// component whose analysis fails with its message; `None` when a component
/// that is reached cannot be analysed without an overflow (see
/// `component_folds_safely` and `template_fits`).
pub open spec fn build_prefix(
    items: Seq<TopLevelItemV>,
    n: nat,
) -> Option<Result<(Seq<ExternBlockV>, Option<ComponentPlanV>), (Seq<char>, Seq<char>)>>
    decreases n,
{
    if n == 0 {
        Some(Ok((Seq::empty(), None)))
    } else {
        match build_prefix(items, (n - 1) as nat) {
            Some(Ok((bs, plan))) => match items[n - 1] {
                TopLevelItemV::ExternBlock(b) => Some(Ok((bs.push(b), plan))),
                TopLevelItemV::Component(c) => if component_folds_safely(c) && template_fits(c) {
                    match analysis_of(c) {
                        Ok(p) => Some(Ok((bs, Some(p)))),
                        Err(m) => Some(Err((c.name, m))),
                    }
                } else {
                    None
                },
            },
            other => other,
        }
    }
}

/// What the build step makes of all the items.
pub open spec fn build_of(items: Seq<TopLevelItemV>) -> Option<
    Result<(Seq<ExternBlockV>, Option<ComponentPlanV>), (Seq<char>, Seq<char>)>,
> {
    build_prefix(items, items.len())
}

/// Whether the build step reaches no component that it cannot analyse
/// without an overflow.
pub fn build_is_defined(program: &Program) -> (b: bool)
    ensures
        b == build_of(program@.items) is Some,
{
    let ghost items = program@.items;
    let mut k: usize = 0;
    while k < program.items.len()
        invariant
            k <= program.items@.len(),
            items == program@.items,
            build_prefix(items, k as nat) matches Some(Ok(_)),
        decreases program.items@.len() - k,
    {
        if let TopLevelItem::Component(c) = &program.items[k] {
            assert(items[k as int] == TopLevelItemV::Component(c@));
            if !crate::analysis::optimizer::AstOptimizer::can_fold_component(c)
                || !ReactivityAnalyzer::template_fits_check(c) {
                proof {
                    lemma_build_none_stays(items, (k + 1) as nat, items.len());
                }
                return false;
            }
            if ReactivityAnalyzer::analyze_component(c).is_err() {
                proof {
                    lemma_build_err_stays(items, (k + 1) as nat, items.len());
                }
                return true;
            }
        }
        k += 1;
    }
    true
}

/// Once the build step stops without a value, it stays so.
proof fn lemma_build_none_stays(items: Seq<TopLevelItemV>, k: nat, j: nat)
    requires
        k <= j <= items.len(),
        build_prefix(items, k) is None,
    ensures
        build_prefix(items, j) is None,
    decreases j - k,
{
    if k < j {
        lemma_build_none_stays(items, k, (j - 1) as nat);
    }
}

/// Once the build step fails, its error stays.
proof fn lemma_build_err_stays(items: Seq<TopLevelItemV>, k: nat, j: nat)
    requires
        k <= j <= items.len(),
        build_prefix(items, k) is Some,
        build_prefix(items, k)->Some_0 is Err,
    ensures
        build_prefix(items, j) == build_prefix(items, k),
    decreases j - k,
{
    if k < j {
        lemma_build_err_stays(items, k, (j - 1) as nat);
    }
}

/// The build step of a program: its extern blocks, in order, and the plan of
/// its last component; the first component whose analysis fails gives its
/// name and message; a program without a component gives `NoComponent`.
pub fn plan_program(program: Program) -> (r: Result<(Vec<ExternBlock>, ComponentPlan), BuildError>)
    requires
        build_of(program@.items) is Some,
    ensures
        match build_of(program@.items)->Some_0 {
            Ok((bs, Some(p))) => r matches Ok((v, plan)) && blocks_view(v@) == bs && plan@ == p,
            Ok((_, None)) => r matches Err(BuildError::NoComponent),
            Err((name, m)) => r matches Err(BuildError::Analysis { component, message }) && component@ == name
                && message@ == m,
        },
{
    let ghost items = program@.items;
    let mut rest = program.items;
    let mut blocks: Vec<ExternBlock> = Vec::new();
    let mut plan: Option<ComponentPlan> = None;
    let ghost mut k: nat = 0;
    assert(blocks_view(blocks@) =~= Seq::<ExternBlockV>::empty());
    while rest.len() > 0
        invariant
            items == program@.items,
            k + rest@.len() == items.len(),
            forall|i: int| 0 <= i < rest@.len() ==> #[trigger] rest@[i]@ == items[k + i],
            build_of(items) is Some,
            build_prefix(items, k) matches Some(Ok((bs, p))) && blocks_view(blocks@) == bs && match p {
                Some(pv) => plan matches Some(x) && x@ == pv,
                None => plan is None,
            },
        decreases rest@.len(),
    {
        proof {
            if build_prefix(items, k + 1) is None {
                lemma_build_none_stays(items, k + 1, items.len());
            }
        }
        let ghost prev = rest@;
        let item = rest.remove(0);
        assert(item@ == items[k as int]);
        match item {
            TopLevelItem::ExternBlock(b) => {
                let ghost before = blocks_view(blocks@);
                blocks.push(b);
                assert(blocks_view(blocks@) =~= before.push(items[k as int]->ExternBlock_0));
            },
            TopLevelItem::Component(c) => {
                assert(items[k as int] == TopLevelItemV::Component(c@));
                match ReactivityAnalyzer::analyze_component(&c) {
                    Ok(p) => {
                        plan = Some(p);
                    },
                    Err(message) => {
                        proof {
                            assert(build_prefix(items, k + 1) == Some(
                                Err::<(Seq<ExternBlockV>, Option<ComponentPlanV>), (Seq<char>, Seq<char>)>((c@.name, message@)),
                            ));
                            lemma_build_err_stays(items, k + 1, items.len());
                            assert(build_of(items) == build_prefix(items, k + 1));
                        }
                        let name = c.name;
                        assert(name@ == c@.name);
                        return Err(BuildError::Analysis { component: name, message });
                    },
                }
            },
        }
        proof {
            k = k + 1;
            assert forall|i: int| 0 <= i < rest@.len() implies #[trigger] rest@[i]@ == items[k + i] by {
                assert(rest@[i] == prev[i + 1]);
            }
        }
    }
    assert(k == items.len());
    assert(build_of(items) == build_prefix(items, k));
    match plan {
        Some(p) => Ok((blocks, p)),
        None => Err(BuildError::NoComponent),
    }
}


/// The extern blocks among a list of items, in order.
pub open spec fn extern_items(items: Seq<TopLevelItemV>) -> Seq<ExternBlockV>
    decreases items.len(),
{
    if items.len() == 0 {
        Seq::empty()
    } else {
        let rest = extern_items(items.drop_last());
        match items.last() {
            TopLevelItemV::ExternBlock(b) => rest.push(b),
            TopLevelItemV::Component(_) => rest,
        }
    }
}

proof fn lemma_build_prefix_externs(items: Seq<TopLevelItemV>, n: nat)
    requires
        n <= items.len(),
    ensures
        build_prefix(items, n) matches Some(Ok((bs, _))) ==> bs == extern_items(items.subrange(0, n as int)),
    decreases n,
{
    if n > 0 {
        lemma_build_prefix_externs(items, (n - 1) as nat);
        assert(items.subrange(0, n as int).drop_last() =~= items.subrange(0, n - 1));
        assert(items.subrange(0, n as int).last() == items[n - 1]);
    } else {
        assert(items.subrange(0, 0) =~= Seq::<TopLevelItemV>::empty());
    }
}

/// Law: the build step keeps every extern block of the program, in order,
/// wherever it stands among the components: when it succeeds, the blocks it
/// gives are exactly the program's extern blocks, as many as there are.
pub proof fn law_build_keeps_all_externs(items: Seq<TopLevelItemV>)
    ensures
        build_of(items) matches Some(Ok((bs, _))) ==> bs == extern_items(items),
{
    lemma_build_prefix_externs(items, items.len());
    assert(items.subrange(0, items.len() as int) =~= items);
}

} // verus!

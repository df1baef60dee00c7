//! Installing: what a plan holds, and how it is carried out.
use crate::error::{first_failure, Error, ErrorView};
use crate::fetch::formula_views;
use crate::formula::{BottleFileView, Formula, FormulaView, SelectedBottle};
use crate::tap::TapManager;
use crate::text::texts;
use crate::text_map::TextMap;
use vstd::prelude::*;

verus! {

/// What is to be installed: formulas, dependencies first, and a bottle for each.
pub struct InstallPlan {
    pub formulas: Vec<Formula>,
    pub bottles: Vec<SelectedBottle>,
}

/// Model of an [`InstallPlan`].
#[verifier::ext_equal]
pub struct PlanView {
    pub formulas: Seq<FormulaView>,
    pub bottles: Seq<BottleFileView>,
}

impl InstallPlan {
    pub open spec fn view(&self) -> PlanView {
        PlanView {
            formulas: self.formulas@.map_values(|f: Formula| f@),
            bottles: self.bottles@.map_values(|b: SelectedBottle| b@),
        }
    }
}

/// What came of a plan: how many packages were installed.
#[derive(Debug)]
pub struct ExecuteResult {
    pub installed: usize,
}

/// An installer: where casks are kept, where programs are linked, and the taps.
pub struct Installer {
    pub store_root: String,
    pub prefix: String,
    pub tap_manager: TapManager,
}

/// The formulas with the given names.
pub open spec fn named_formulas(
    formulas: Map<Seq<char>, FormulaView>,
    names: Seq<Seq<char>>,
) -> Seq<FormulaView> {
    names.map_values(|n: Seq<char>| formulas[n])
}

/// The bottles that were chosen.
pub open spec fn chosen_bottles(selected: Seq<Result<SelectedBottle, Error>>) -> Seq<
    BottleFileView,
> {
    selected.map_values(|s: Result<SelectedBottle, Error>| s->Ok_0@)
}

impl Installer {
    /// An installer for the given directories and taps.
    pub fn new(store_root: String, prefix: String, tap_manager: TapManager) -> (r: Self)
        ensures
            r.store_root@ == store_root@,
            r.prefix@ == prefix@,
            r.tap_manager@ == tap_manager@,
    {
        Self { store_root, prefix, tap_manager }
    }

    /// The plan to install some formulas in the given order, where a bottle may have
    /// been chosen for each; the first failure to choose one, where there is one.
    pub fn plan(
        &self,
        formulas: &TextMap<Formula>,
        ordered: &Vec<String>,
        selected: Vec<Result<SelectedBottle, Error>>,
    ) -> (r: Result<InstallPlan, Error>)
        requires
            forall|i: int|
                0 <= i < ordered@.len() ==> formulas@.contains_key(#[trigger] ordered@[i]@),
            selected@.len() == ordered@.len(),
        ensures
            match (first_failure(selected@), r) {
                (None, Ok(plan)) => plan@ == (PlanView {
                    formulas: named_formulas(formula_views(formulas@), texts(ordered@)),
                    bottles: chosen_bottles(selected@),
                }),
                (Some(failure), Err(e)) => e@ == failure,
                _ => false,
            },
            match r {
                Ok(plan) => {
                    &&& plan.formulas@.len() == ordered@.len()
                    &&& plan.bottles@.len() == selected@.len()
                    &&& forall|i: int|
                        0 <= i < ordered@.len() ==> (#[trigger] plan.formulas@[i])@
                            == formulas@[ordered@[i]@]@
                    &&& forall|i: int|
                        0 <= i < selected@.len() ==> selected@[i] is Ok && (
                        #[trigger] plan.bottles@[i])@ == selected@[i]->Ok_0@
                },
                Err(e) => exists|i: int|
                    0 <= i < selected@.len() && (#[trigger] selected@[i]) is Err
                        && selected@[i]->Err_0@ == e@ && forall|j: int|
                        0 <= j < i ==> (#[trigger] selected@[j]) is Ok,
            },
    {
        let mut all_formulas: Vec<Formula> = Vec::new();
        let mut i: usize = 0;
        while i < ordered.len()
            invariant
                i <= ordered@.len(),
                all_formulas@.len() == i,
                forall|j: int|
                    0 <= j < ordered@.len() ==> formulas@.contains_key(#[trigger] ordered@[j]@),
                forall|j: int|
                    0 <= j < i ==> #[trigger] all_formulas@[j]@ == formulas@[ordered@[j]@]@,
            decreases ordered.len() - i,
        {
            proof {
                assert(formulas@.contains_key(ordered@[i as int]@));
            }
            match formulas.get(ordered[i].as_str()) {
                Some(formula) => all_formulas.push(formula.clone()),
                None => {},
            }
            i = i + 1;
        }
        let mut bottles: Vec<SelectedBottle> = Vec::new();
        proof {
            assert(selected@.skip(0) =~= selected@);
        }
        for choice in it: selected
            invariant
                it.seq() == selected@,
                bottles@.len() == it.index(),
                forall|j: int|
                    0 <= j < it.index() ==> #[trigger] bottles@[j]@ == selected@[j]->Ok_0@,
                forall|j: int| 0 <= j < it.index() ==> (#[trigger] selected@[j]) is Ok,
                first_failure(selected@) == first_failure(selected@.skip(it.index())),
        {
            proof {
                assert(selected@.skip(it.index())[0] == choice);
                assert(selected@.skip(it.index()).skip(1) =~= selected@.skip(it.index() + 1));
            }
            match choice {
                Ok(bottle) => bottles.push(bottle),
                Err(e) => {
                    assert(selected@[it.index()] is Err);
                    return Err(e);
                },
            }
        }
        proof {
            assert(selected@.skip(selected@.len() as int).len() == 0);
        }
        let plan = InstallPlan { formulas: all_formulas, bottles };
        proof {
            assert(plan@.formulas =~= named_formulas(formula_views(formulas@), texts(ordered@)));
            assert(plan@.bottles =~= chosen_bottles(selected@));
        }
        Ok(plan)
    }
}

} // verus!

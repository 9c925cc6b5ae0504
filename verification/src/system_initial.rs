//! Projection of initial data onto the meshes of a composed system's leaves, and what a
//! projected state holds.
use crate::error::{ErrorModel, KrasisError};
use crate::initial;
use crate::initial::{check_sources, project_blocks, InitialData, NodalContext};
use crate::numeric::EvaluationRefusal;
use crate::scalar::Scalar;
use crate::state::SimulationState;
use crate::state_model;
use crate::state_model::StateModel;
use crate::system::{CoupledLeaf, CoupledSystemOperator, LeafSource};
use crate::system_model;
use crate::system_model::LeafModel;
use crate::trajectory;
use vstd::prelude::*;

verus! {

/// The vertices of the mesh that a leaf is realized over.
pub open spec fn leaf_points(source: LeafSource) -> Option<Seq<Seq<Scalar>>> {
    match source {
        LeafSource::Opaque => None,
        LeafSource::Plan(plan) => Some(trajectory::vectors(plan.vertices@)),
        LeafSource::Reduced(reduced) => Some(trajectory::vectors(reduced.vertices@)),
    }
}

/// Whether projecting the blocks of a leaf leads from one state to another.
pub open spec fn leaf_projected<S, T>(
    data: InitialData<S, T>,
    leaf: CoupledLeaf,
    before: StateModel,
    after: StateModel,
) -> bool where
    S: Fn(&str, &Vec<Scalar>, Scalar) -> Result<Vec<Scalar>, EvaluationRefusal>,
    T: Fn(Scalar) -> String,
 {
    match leaf_points(leaf.built_over()) {
        None => false,
        Some(points) => initial::nodal_failure(points) is None && initial::blocks_projected(
            data,
            leaf@.blocks,
            points,
            leaf@.blocks.len() as int,
            before,
            after,
        ),
    }
}

/// Whether projecting the blocks of a leaf failed: it has no mesh, its vertices are no nodal
/// context, or one of its blocks failed.
pub open spec fn leaf_failed<S, T>(
    data: InitialData<S, T>,
    leaf: CoupledLeaf,
    before: StateModel,
    error: ErrorModel,
) -> bool where
    S: Fn(&str, &Vec<Scalar>, Scalar) -> Result<Vec<Scalar>, EvaluationRefusal>,
    T: Fn(Scalar) -> String,
 {
    match leaf_points(leaf.built_over()) {
        None => error == ErrorModel::InvalidCoupling(
            "leaf `"@ + leaf@.name + "` has no mesh to project initial data onto"@,
        ),
        Some(points) => match initial::nodal_failure(points) {
            Some(failure) => error == failure,
            None => initial::blocks_failed(data, leaf@.blocks, points, before, error),
        },
    }
}

/// Whether projecting the first `count` leaves leads from one state to another.
pub open spec fn leaves_projected<S, T>(
    data: InitialData<S, T>,
    leaves: Seq<CoupledLeaf>,
    count: int,
    before: StateModel,
    after: StateModel,
) -> bool where
    S: Fn(&str, &Vec<Scalar>, Scalar) -> Result<Vec<Scalar>, EvaluationRefusal>,
    T: Fn(Scalar) -> String,

    decreases count,
{
    if count <= 0 {
        after == before
    } else {
        exists|between: StateModel|
            {
                &&& leaves_projected(data, leaves, count - 1, before, between)
                &&& #[trigger] leaf_projected(data, leaves[count - 1], between, after)
            }
    }
}

/// What projecting initial data onto a composed system gives.
pub open spec fn system_state_given<S, T>(
    data: InitialData<S, T>,
    operator: CoupledSystemOperator,
    history_limit: nat,
    result: Result<SimulationState, KrasisError>,
) -> bool where
    S: Fn(&str, &Vec<Scalar>, Scalar) -> Result<Vec<Scalar>, EvaluationRefusal>,
    T: Fn(Scalar) -> String,
 {
    let leaves = operator.parts();
    let fresh = state_model::fresh(operator@.layout, history_limit);
    match initial::sources_failure(operator@.layout, data.bindings@) {
        Some(failure) => result matches Err(error) && error@ == failure,
        None => match result {
            Ok(state) => state.wf() && leaves_projected(
                data,
                leaves,
                leaves.len() as int,
                fresh,
                state@,
            ),
            Err(error) => exists|k: int, between: StateModel|
                {
                    &&& 0 <= k < leaves.len()
                    &&& #[trigger] leaves_projected(data, leaves, k, fresh, between)
                    &&& #[trigger] leaf_failed(data, leaves[k], between, error@)
                },
        },
    }
}

proof fn lemma_composed_holds(leaves: Seq<LeafModel>, count: int, k: int, j: int)
    requires
        0 <= k < count <= leaves.len(),
        0 <= j < leaves[k].blocks.len(),
    ensures
        exists|i: int|
            0 <= i < system_model::composed_blocks(leaves, count).len() && (
            #[trigger] system_model::composed_blocks(leaves, count)[i]).id == leaves[k].blocks[j].id,
    decreases count,
{
    let before = system_model::composed_blocks(leaves, count - 1);
    let all = system_model::composed_blocks(leaves, count);
    let added = system_model::shifted(
        leaves[count - 1].blocks,
        system_model::offset_of(leaves, count - 1),
    );
    if k == count - 1 {
        assert(all[before.len() + j] == added[j]);
    } else {
        lemma_composed_holds(leaves, count - 1, k, j);
        let i = choose|i: int|
            0 <= i < before.len() && (#[trigger] before[i]).id == leaves[k].blocks[j].id;
        assert(all[i] == before[i]);
    }
}

impl CoupledSystemOperator {
    /// Projects the data of every leaf's blocks over that leaf's own mesh, into one fresh
    /// state.
    pub fn initial_state_from<S, T>(
        &self,
        history_limit: usize,
        data: &InitialData<S, T>,
    ) -> (result: Result<SimulationState, KrasisError>) where
        S: Fn(&str, &Vec<Scalar>, Scalar) -> Result<Vec<Scalar>, EvaluationRefusal>,
        T: Fn(Scalar) -> String,

        requires
            self.wf(),
            data.callable(),
        ensures
            system_state_given(*data, *self, history_limit as nat, result),
    {
        proof {
            self.lemma_wf();
        }
        match check_sources(self.layout(), &data.bindings) {
            Ok(_) => {},
            Err(error) => {
                return Err(error);
            },
        }
        let mut state = SimulationState::new(self.layout().clone(), history_limit);
        let ghost fresh = state@;
        let leaves = self.leaves();
        let mut index: usize = 0;
        while index < leaves.len()
            invariant
                index <= leaves@.len(),
                self.wf(),
                leaves@ == self.parts(),
                forall|i: int| 0 <= i < leaves@.len() ==> (#[trigger] leaves@[i]).wf(),
                data.callable(),
                initial::sources_failure(self@.layout, data.bindings@) is None,
                fresh == state_model::fresh(self@.layout, history_limit as nat),
                state.wf(),
                leaves_projected(*data, leaves@, index as int, fresh, state@),
            decreases leaves.len() - index,
        {
            let leaf = &leaves[index];
            let ghost between = state@;
            let vertices = match leaf.source() {
                LeafSource::Opaque => {
                    let error = KrasisError::InvalidCoupling(
                        "leaf `".to_owned().concat(leaf.name()).concat(
                            "` has no mesh to project initial data onto",
                        ),
                    );
                    assert(leaf_failed(*data, leaves@[index as int], between, error@));
                    return Err(error);
                },
                LeafSource::Plan(plan) => &plan.vertices,
                LeafSource::Reduced(reduced) => &reduced.vertices,
            };
            let nodal = match NodalContext::new(vertices) {
                Ok(nodal) => nodal,
                Err(error) => {
                    assert(leaf_failed(*data, leaves@[index as int], between, error@));
                    return Err(error);
                },
            };
            let blocks = leaf.layout().blocks();
            proof {
                self.lemma_wf();
                leaf.lemma_wf();
                let models = self@.leaves;
                assert(models[index as int] == leaf@);
                leaf.lemma_tiles();
                assert forall|i: int| 0 <= i < blocks@.len() implies {
                    &&& (#[trigger] blocks@[i])@.start <= blocks@[i]@.end
                    &&& initial::has_source(
                        data.bindings@,
                        blocks@[i]@.id,
                        data.bindings@.len() as int,
                    )
                } by {
                    assert(leaf@.blocks[i] == blocks@[i]@);
                    lemma_composed_holds(models, models.len() as int, index as int, i);
                    let place = choose|place: int|
                        0 <= place < self@.layout.len() && (#[trigger] self@.layout[place]).id
                            == blocks@[i]@.id;
                    initial::lemma_all_have_sources(self@.layout, data.bindings@, 0, place);
                }
            }
            match project_blocks(data, blocks, &nodal, &mut state) {
                Ok(_) => {},
                Err(error) => {
                    assert(leaf_failed(*data, leaves@[index as int], between, error@));
                    return Err(error);
                },
            }
            proof {
                let next: int = index + 1;
                assert(leaf_projected(*data, leaves@[next - 1], between, state@));
                assert(leaves_projected(*data, leaves@, next - 1, fresh, between));
            }
            index += 1;
        }
        Ok(state)
    }
}

} // verus!

//! Projection of initial data onto the vertices of a mesh.
use crate::error::{ErrorModel, KrasisError};
use crate::layout;
use crate::layout::{BlockId, BlockModel, StateBlock, StateLayout};
use crate::numeric::EvaluationRefusal;
use crate::rendering;
use crate::rendering::render_row;
use crate::scalar;
use crate::scalar::{append_scalars, copy_scalars, find_non_finite, Scalar};
use crate::state::{FieldId, SimulationState};
use crate::state_model;
use crate::state_model::StateModel;
use crate::text;
use crate::text::{join_with, same_text, size_text};
use crate::trajectory;
use vstd::prelude::*;

verus! {

/// The position of the first infinite or NaN value.
pub open spec fn first_bad(values: Seq<Scalar>) -> nat {
    (choose|i: int| scalar::first_non_finite(values, i)) as nat
}

/// What is wrong with the point at a position.
pub open spec fn point_failure(points: Seq<Seq<Scalar>>, i: int) -> Option<ErrorModel> {
    if points[i].len() != points[0].len() {
        Some(
            ErrorModel::InconsistentNodalCoordinates {
                index: i as nat,
                expected: points[0].len(),
                actual: points[i].len(),
            },
        )
    } else if !scalar::all_finite(points[i]) {
        Some(
            ErrorModel::NonFiniteValue {
                label: "nodal coordinate "@ + text::decimal(i as nat),
                index: first_bad(points[i]),
            },
        )
    } else {
        None
    }
}

/// What is wrong with the first bad point from a position on.
pub open spec fn first_point_failure(points: Seq<Seq<Scalar>>, from: int) -> Option<ErrorModel>
    decreases points.len() - from,
{
    if from >= points.len() {
        None
    } else {
        match point_failure(points, from) {
            Some(failure) => Some(failure),
            None => first_point_failure(points, from + 1),
        }
    }
}

/// Why points are no nodal context: there is none, their dimensions differ, or a coordinate
/// is not finite.
pub open spec fn nodal_failure(points: Seq<Seq<Scalar>>) -> Option<ErrorModel> {
    if points.len() == 0 {
        Some(ErrorModel::EmptyNodalContext)
    } else {
        first_point_failure(points, 0)
    }
}

/// The vertex coordinates that sources are evaluated at.
#[derive(Clone, Debug, PartialEq, Eq)]
pub struct NodalContext<'a> {
    coordinates: &'a Vec<Vec<Scalar>>,
}

impl<'a> NodalContext<'a> {
    pub closed spec fn points(&self) -> Seq<Seq<Scalar>> {
        trajectory::vectors(self.coordinates@)
    }

    /// At least one point, all of one dimension and finite.
    pub open spec fn wf(&self) -> bool {
        nodal_failure(self.points()) is None
    }

    pub fn new(coordinates: &'a Vec<Vec<Scalar>>) -> (result: Result<NodalContext<'a>, KrasisError>)
        ensures
            match nodal_failure(trajectory::vectors(coordinates@)) {
                Some(failure) => result matches Err(error) && error@ == failure,
                None => result matches Ok(nodal) && nodal.wf() && nodal.points()
                    == trajectory::vectors(coordinates@),
            },
    {
        let ghost points = trajectory::vectors(coordinates@);
        if coordinates.len() == 0 {
            return Err(KrasisError::EmptyNodalContext);
        }
        let dimension: usize = coordinates[0].len();
        let mut index: usize = 0;
        while index < coordinates.len()
            invariant
                index <= coordinates@.len(),
                coordinates@.len() > 0,
                points == trajectory::vectors(coordinates@),
                dimension == points[0].len(),
                first_point_failure(points, 0) == first_point_failure(points, index as int),
            decreases coordinates.len() - index,
        {
            let point = &coordinates[index];
            assert(points[index as int] == point@);
            if point.len() != dimension {
                return Err(
                    KrasisError::InconsistentNodalCoordinates {
                        index,
                        expected: dimension,
                        actual: point.len(),
                    },
                );
            }
            match find_non_finite(point) {
                Some(component) => {
                    proof {
                        let chosen = choose|i: int| scalar::first_non_finite(point@, i);
                        assert(scalar::first_non_finite(point@, component as int));
                        assert(scalar::first_non_finite(point@, chosen));
                        assert(chosen == component);
                    }
                    return Err(
                        KrasisError::NonFiniteValue {
                            label: "nodal coordinate ".to_owned().concat(
                                size_text(index).as_str(),
                            ),
                            index: component,
                        },
                    );
                },
                None => {},
            }
            index += 1;
        }
        Ok(NodalContext { coordinates })
    }

    pub fn vertex_count(&self) -> (result: usize)
        ensures
            result == self.points().len(),
            self.wf() ==> result > 0,
    {
        self.coordinates.len()
    }

    pub fn coordinates(&self) -> (result: &'a Vec<Vec<Scalar>>)
        ensures
            trajectory::vectors(result@) == self.points(),
    {
        self.coordinates
    }
}

/// Where the values of a block come from.
#[derive(Clone, Debug, PartialEq, Eq)]
pub enum FieldSource {
    /// The same components at every vertex.
    Constant(Vec<Scalar>),
    /// The components of every vertex, vertex after vertex.
    Nodal(Vec<Scalar>),
    /// Components sampled at a point and a time, which may be refused.
    Fallible,
    /// A source without point values.
    NotPointwise,
}

/// Initial data: a source for every block. `sample` evaluates the sampled source of a block
/// at a point and a time; `render` writes a coordinate or a time into a refusal.
pub struct InitialData<S, T> where
    S: Fn(&str, &Vec<Scalar>, Scalar) -> Result<Vec<Scalar>, EvaluationRefusal>,
    T: Fn(Scalar) -> String,
 {
    pub bindings: Vec<(BlockId, FieldSource)>,
    pub sample: S,
    pub render: T,
}

impl<S, T> InitialData<S, T> where
    S: Fn(&str, &Vec<Scalar>, Scalar) -> Result<Vec<Scalar>, EvaluationRefusal>,
    T: Fn(Scalar) -> String,
 {
    pub open spec fn callable(self) -> bool {
        &&& forall|block: &str, point: &Vec<Scalar>, time: Scalar| call_requires(
            self.sample,
            (block, point, time),
        )
        &&& forall|value: Scalar| call_requires(self.render, (value,))
    }
}

/// The position of the first source of a block, from a position on.
pub open spec fn source_index(
    bindings: Seq<(BlockId, FieldSource)>,
    block: Seq<char>,
    from: int,
) -> int
    decreases bindings.len() - from,
{
    if from >= bindings.len() || bindings[from].0@ == block {
        from
    } else {
        source_index(bindings, block, from + 1)
    }
}

/// Whether a block has a source among the first `count`.
pub open spec fn has_source(
    bindings: Seq<(BlockId, FieldSource)>,
    block: Seq<char>,
    count: int,
) -> bool {
    exists|i: int| 0 <= i < count && (#[trigger] bindings[i]).0@ == block
}

/// What is wrong with the first bad binding from a position on: it names no block, or a
/// block that an earlier one names.
pub open spec fn binding_failure(
    blocks: Seq<BlockModel>,
    bindings: Seq<(BlockId, FieldSource)>,
    from: int,
) -> Option<ErrorModel>
    decreases bindings.len() - from,
{
    if from >= bindings.len() {
        None
    } else if !layout::has_block(blocks, bindings[from].0@) {
        Some(ErrorModel::InitialBlockUnknown(bindings[from].0@))
    } else if has_source(bindings, bindings[from].0@, from) {
        Some(ErrorModel::InitialBlockDuplicate(bindings[from].0@))
    } else {
        binding_failure(blocks, bindings, from + 1)
    }
}

/// The first block from a position on that has no source.
pub open spec fn missing_failure(
    blocks: Seq<BlockModel>,
    bindings: Seq<(BlockId, FieldSource)>,
    from: int,
) -> Option<ErrorModel>
    decreases blocks.len() - from,
{
    if from >= blocks.len() {
        None
    } else if !has_source(bindings, blocks[from].id, bindings.len() as int) {
        Some(ErrorModel::InitialBlockMissing(blocks[from].id))
    } else {
        missing_failure(blocks, bindings, from + 1)
    }
}

/// Why bindings do not name every block exactly once.
pub open spec fn sources_failure(
    blocks: Seq<BlockModel>,
    bindings: Seq<(BlockId, FieldSource)>,
) -> Option<ErrorModel> {
    match binding_failure(blocks, bindings, 0) {
        Some(failure) => Some(failure),
        None => missing_failure(blocks, bindings, 0),
    }
}

/// Finds the source of a block.
fn find_source(bindings: &Vec<(BlockId, FieldSource)>, block: &str) -> (result: usize)
    ensures
        result == source_index(bindings@, block@, 0),
        result < bindings@.len() <==> has_source(bindings@, block@, bindings@.len() as int),
        result <= bindings@.len(),
{
    let mut index: usize = 0;
    while index < bindings.len()
        invariant
            index <= bindings@.len(),
            source_index(bindings@, block@, 0) == source_index(bindings@, block@, index as int),
            forall|i: int| 0 <= i < index ==> (#[trigger] bindings@[i]).0@ != block@,
        decreases bindings.len() - index,
    {
        if same_text(bindings[index].0.as_str(), block) {
            assert(bindings@[index as int].0@ == block@);
            return index;
        }
        index += 1;
    }
    index
}

fn repeats(bindings: &Vec<(BlockId, FieldSource)>, position: usize) -> (result: bool)
    requires
        position < bindings@.len(),
    ensures
        result == has_source(bindings@, bindings@[position as int].0@, position as int),
{
    let mut index: usize = 0;
    while index < position
        invariant
            index <= position < bindings@.len(),
            forall|i: int|
                0 <= i < index ==> (#[trigger] bindings@[i]).0@ != bindings@[position as int].0@,
        decreases position - index,
    {
        if same_text(bindings[index].0.as_str(), bindings[position].0.as_str()) {
            assert(bindings@[index as int].0@ == bindings@[position as int].0@);
            return true;
        }
        index += 1;
    }
    false
}

/// Checks that bindings name every block exactly once.
pub(crate) fn check_sources(layout: &StateLayout, bindings: &Vec<(BlockId, FieldSource)>) -> (result:
    Result<(), KrasisError>)
    requires
        layout.wf(),
    ensures
        match sources_failure(layout@, bindings@) {
            Some(failure) => result matches Err(error) && error@ == failure,
            None => result is Ok,
        },
{
    let mut index: usize = 0;
    while index < bindings.len()
        invariant
            index <= bindings@.len(),
            layout.wf(),
            binding_failure(layout@, bindings@, 0) == binding_failure(
                layout@,
                bindings@,
                index as int,
            ),
        decreases bindings.len() - index,
    {
        let block = &bindings[index].0;
        if layout.block(block).is_none() {
            return Err(KrasisError::InitialBlockUnknown(block.as_str().to_owned()));
        }
        if repeats(bindings, index) {
            return Err(KrasisError::InitialBlockDuplicate(block.as_str().to_owned()));
        }
        index += 1;
    }
    let blocks = layout.blocks();
    let mut position: usize = 0;
    while position < blocks.len()
        invariant
            position <= blocks@.len(),
            layout@ == layout::block_models(blocks@),
            binding_failure(layout@, bindings@, 0) is None,
            missing_failure(layout@, bindings@, 0) == missing_failure(
                layout@,
                bindings@,
                position as int,
            ),
        decreases blocks.len() - position,
    {
        let block = &blocks[position];
        assert(layout@[position as int] == block@);
        if find_source(bindings, block.id().as_str()) >= bindings.len() {
            return Err(KrasisError::InitialBlockMissing(block.id().as_str().to_owned()));
        }
        position += 1;
    }
    Ok(())
}

/// The values one behind the other, `count` times.
pub open spec fn repeated(values: Seq<Scalar>, count: int) -> Seq<Scalar>
    decreases count,
{
    if count <= 0 {
        Seq::empty()
    } else {
        repeated(values, count - 1) + values
    }
}

/// Whether sampling the source of a block at a vertex gave a value.
pub open spec fn sample_gives<S, T>(
    data: InitialData<S, T>,
    block: Seq<char>,
    points: Seq<Seq<Scalar>>,
    time: Scalar,
    k: int,
    value: Result<Vec<Scalar>, EvaluationRefusal>,
) -> bool where
    S: Fn(&str, &Vec<Scalar>, Scalar) -> Result<Vec<Scalar>, EvaluationRefusal>,
    T: Fn(Scalar) -> String,
 {
    exists|name: &str, point: Vec<Scalar>|
        {
            &&& name@ == block
            &&& point@ == points[k]
            &&& #[trigger] call_ensures(data.sample, (name, &point, time), value)
        }
}

/// Whether the values sampled at the first `count` vertices, each of the given number of
/// components, are the given values, one behind the other.
pub open spec fn samples_give<S, T>(
    data: InitialData<S, T>,
    block: Seq<char>,
    points: Seq<Seq<Scalar>>,
    time: Scalar,
    components: nat,
    count: int,
    values: Seq<Scalar>,
) -> bool where
    S: Fn(&str, &Vec<Scalar>, Scalar) -> Result<Vec<Scalar>, EvaluationRefusal>,
    T: Fn(Scalar) -> String,

    decreases count,
{
    if count <= 0 {
        values.len() == 0
    } else {
        exists|value: Vec<Scalar>|
            {
                &&& #[trigger] sample_gives(data, block, points, time, count - 1, Ok(value))
                &&& value@.len() == components
                &&& components <= values.len()
                &&& values.skip(values.len() - components) == value@
                &&& samples_give(
                    data,
                    block,
                    points,
                    time,
                    components,
                    count - 1,
                    values.take(values.len() - components),
                )
            }
    }
}

/// Whether an error is a refusal located at a point and a time.
pub open spec fn located<T: Fn(Scalar) -> String>(
    refusal: EvaluationRefusal,
    point: Seq<Scalar>,
    time: Scalar,
    render: T,
    error: ErrorModel,
) -> bool {
    exists|coordinates: Seq<Seq<char>>, instant: Seq<char>|
        {
            &&& #[trigger] rendering::row_rendered(point, render, coordinates)
            &&& #[trigger] rendering::entry_rendered(time, render, instant)
            &&& error == (ErrorModel::EvaluationRefused {
                code: refusal.code@,
                origin: refusal.origin@,
                message: "point ("@ + text::joined_with(coordinates, ", "@) + "), t = "@ + instant
                    + ": "@ + refusal.message@,
            })
        }
}

/// What sampling the source of a block at every vertex gives.
pub open spec fn sampled<S, T>(
    data: InitialData<S, T>,
    block: Seq<char>,
    points: Seq<Seq<Scalar>>,
    time: Scalar,
    components: nat,
    result: Result<Vec<Scalar>, KrasisError>,
) -> bool where
    S: Fn(&str, &Vec<Scalar>, Scalar) -> Result<Vec<Scalar>, EvaluationRefusal>,
    T: Fn(Scalar) -> String,
 {
    match result {
        Ok(values) => samples_give(
            data,
            block,
            points,
            time,
            components,
            points.len() as int,
            values@,
        ),
        Err(error) => exists|
            k: int,
            before: Seq<Scalar>,
            value: Result<Vec<Scalar>, EvaluationRefusal>,
        |
            {
                &&& 0 <= k < points.len()
                &&& #[trigger] samples_give(data, block, points, time, components, k, before)
                &&& #[trigger] sample_gives(data, block, points, time, k, value)
                &&& match value {
                    Ok(value) => value@.len() != components && error@ == (ErrorModel::FieldLength {
                        field: block,
                        actual: value@.len(),
                        expected: components,
                    }),
                    Err(refusal) => located(refusal, points[k], time, data.render, error@),
                }
            },
    }
}

/// What evaluating the source of a block of the given width gives.
pub open spec fn source_evaluated<S, T>(
    data: InitialData<S, T>,
    source: FieldSource,
    block: Seq<char>,
    points: Seq<Seq<Scalar>>,
    time: Scalar,
    width: nat,
    result: Result<Vec<Scalar>, KrasisError>,
) -> bool where
    S: Fn(&str, &Vec<Scalar>, Scalar) -> Result<Vec<Scalar>, EvaluationRefusal>,
    T: Fn(Scalar) -> String,
 {
    let components = width / points.len();
    match source {
        FieldSource::Constant(values) => if values@.len() != components {
            result matches Err(error) && error@ == (ErrorModel::FieldLength {
                field: block,
                actual: values@.len(),
                expected: components,
            })
        } else {
            result matches Ok(given) && given@ == repeated(values@, points.len() as int)
        },
        FieldSource::Nodal(values) => if values@.len() != width {
            result matches Err(error) && error@ == (ErrorModel::FieldLength {
                field: block,
                actual: values@.len(),
                expected: width,
            })
        } else {
            result matches Ok(given) && given@ == values@
        },
        FieldSource::Fallible => sampled(data, block, points, time, components, result),
        FieldSource::NotPointwise => result matches Err(error) && error@
            == ErrorModel::InitialSourceNotPointwise(block),
    }
}

/// What projecting the data of one block gives.
pub open spec fn block_projected<S, T>(
    data: InitialData<S, T>,
    block: BlockModel,
    points: Seq<Seq<Scalar>>,
    time: Scalar,
    result: Result<Vec<Scalar>, KrasisError>,
) -> bool where
    S: Fn(&str, &Vec<Scalar>, Scalar) -> Result<Vec<Scalar>, EvaluationRefusal>,
    T: Fn(Scalar) -> String,
 {
    let width = (block.end - block.start) as nat;
    if width % points.len() != 0 {
        result matches Err(error) && error@ == (ErrorModel::InitialDimensionMismatch {
            block: block.id,
            width,
            vertex_count: points.len(),
        })
    } else {
        source_evaluated(
            data,
            data.bindings@[source_index(data.bindings@, block.id, 0)].1,
            block.id,
            points,
            time,
            width,
            result,
        )
    }
}

/// Whether a state with one more field is the given one.
pub open spec fn inserts(
    before: StateModel,
    name: Seq<char>,
    values: Seq<Scalar>,
    after: StateModel,
) -> bool {
    before.insert_field(name, values) == Ok::<StateModel, ErrorModel>(after)
}

/// Whether projecting the first `count` blocks leads from one state to another.
pub open spec fn blocks_projected<S, T>(
    data: InitialData<S, T>,
    blocks: Seq<BlockModel>,
    points: Seq<Seq<Scalar>>,
    count: int,
    before: StateModel,
    after: StateModel,
) -> bool where
    S: Fn(&str, &Vec<Scalar>, Scalar) -> Result<Vec<Scalar>, EvaluationRefusal>,
    T: Fn(Scalar) -> String,

    decreases count,
{
    if count <= 0 {
        after == before
    } else {
        exists|between: StateModel, values: Vec<Scalar>|
            {
                &&& blocks_projected(data, blocks, points, count - 1, before, between)
                &&& #[trigger] block_projected(
                    data,
                    blocks[count - 1],
                    points,
                    before.time,
                    Ok(values),
                )
                &&& #[trigger] inserts(between, blocks[count - 1].id, values@, after)
            }
    }
}

/// Whether projecting blocks failed at one of them.
pub open spec fn blocks_failed<S, T>(
    data: InitialData<S, T>,
    blocks: Seq<BlockModel>,
    points: Seq<Seq<Scalar>>,
    before: StateModel,
    error: ErrorModel,
) -> bool where
    S: Fn(&str, &Vec<Scalar>, Scalar) -> Result<Vec<Scalar>, EvaluationRefusal>,
    T: Fn(Scalar) -> String,
 {
    exists|k: int, between: StateModel, given: Result<Vec<Scalar>, KrasisError>|
        {
            &&& 0 <= k < blocks.len()
            &&& #[trigger] blocks_projected(data, blocks, points, k, before, between)
            &&& #[trigger] block_projected(data, blocks[k], points, before.time, given)
            &&& match given {
                Ok(values) => between.insert_field(blocks[k].id, values@) == Err::<
                    StateModel,
                    ErrorModel,
                >(error),
                Err(failure) => error == failure@,
            }
        }
}

fn locate<T: Fn(Scalar) -> String>(
    refusal: EvaluationRefusal,
    point: &Vec<Scalar>,
    time: Scalar,
    render: &T,
) -> (result: KrasisError)
    requires
        forall|value: Scalar| call_requires(*render, (value,)),
    ensures
        located(refusal, point@, time, *render, result@),
{
    let coordinates = render_row(point, render);
    let instant = render(time);
    let joined = join_with(&coordinates, ", ");
    let message = "point (".to_owned().concat(joined.as_str()).concat("), t = ").concat(
        instant.as_str(),
    ).concat(": ").concat(refusal.message.as_str());
    let ghost described = refusal;
    let result = KrasisError::EvaluationRefused {
        code: refusal.code,
        origin: refusal.origin,
        message,
    };
    proof {
        assert(rendering::row_rendered(point@, *render, text::text_models(coordinates@)));
        assert(rendering::entry_rendered(time, *render, instant@));
        assert(located(described, point@, time, *render, result@));
    }
    result
}

fn repeat(values: &Vec<Scalar>, count: usize) -> (result: Vec<Scalar>)
    ensures
        result@ == repeated(values@, count as int),
{
    let mut result: Vec<Scalar> = Vec::new();
    let mut done: usize = 0;
    while done < count
        invariant
            done <= count,
            result@ == repeated(values@, done as int),
        decreases count - done,
    {
        append_scalars(&mut result, values);
        done += 1;
    }
    result
}

proof fn lemma_sample_behind<S, T>(
    data: InitialData<S, T>,
    block: Seq<char>,
    points: Seq<Seq<Scalar>>,
    time: Scalar,
    components: nat,
    count: int,
    values: Seq<Scalar>,
    value: Vec<Scalar>,
) where
    S: Fn(&str, &Vec<Scalar>, Scalar) -> Result<Vec<Scalar>, EvaluationRefusal>,
    T: Fn(Scalar) -> String,

    requires
        count >= 0,
        samples_give(data, block, points, time, components, count, values),
        sample_gives(data, block, points, time, count, Ok(value)),
        value@.len() == components,
    ensures
        samples_give(data, block, points, time, components, count + 1, values + value@),
{
    let longer = values + value@;
    assert(longer.len() - components == values.len());
    assert(longer.skip(values.len() as int) =~= value@);
    assert(longer.take(values.len() as int) =~= values);
    assert(sample_gives(data, block, points, time, (count + 1) - 1, Ok(value)));
}

fn sample_block<S, T>(
    data: &InitialData<S, T>,
    block: &str,
    nodal: &NodalContext<'_>,
    time: Scalar,
    components: usize,
) -> (result: Result<Vec<Scalar>, KrasisError>) where
    S: Fn(&str, &Vec<Scalar>, Scalar) -> Result<Vec<Scalar>, EvaluationRefusal>,
    T: Fn(Scalar) -> String,

    requires
        data.callable(),
    ensures
        sampled(*data, block@, nodal.points(), time, components as nat, result),
{
    let ghost points = nodal.points();
    let coordinates = nodal.coordinates();
    let mut assembled: Vec<Scalar> = Vec::new();
    let mut index: usize = 0;
    while index < coordinates.len()
        invariant
            index <= coordinates@.len(),
            points == trajectory::vectors(coordinates@),
            points == nodal.points(),
            data.callable(),
            samples_give(
                *data,
                block@,
                points,
                time,
                components as nat,
                index as int,
                assembled@,
            ),
        decreases coordinates.len() - index,
    {
        let point = &coordinates[index];
        assert(points[index as int] == point@);
        let value = (data.sample)(block, point, time);
        assert(sample_gives(*data, block@, points, time, index as int, value)) by {
            assert(call_ensures(data.sample, (block, point, time), value));
        }
        match value {
            Ok(value) => {
                if value.len() != components {
                    return Err(
                        KrasisError::FieldLength {
                            field: block.to_owned(),
                            actual: value.len(),
                            expected: components,
                        },
                    );
                }
                proof {
                    lemma_sample_behind(
                        *data,
                        block@,
                        points,
                        time,
                        components as nat,
                        index as int,
                        assembled@,
                        value,
                    );
                }
                append_scalars(&mut assembled, &value);
            },
            Err(refusal) => {
                return Err(locate(refusal, point, time, &data.render));
            },
        }
        index += 1;
    }
    Ok(assembled)
}

fn evaluate_field_source<S, T>(
    data: &InitialData<S, T>,
    source: &FieldSource,
    block: &str,
    nodal: &NodalContext<'_>,
    time: Scalar,
    width: usize,
) -> (result: Result<Vec<Scalar>, KrasisError>) where
    S: Fn(&str, &Vec<Scalar>, Scalar) -> Result<Vec<Scalar>, EvaluationRefusal>,
    T: Fn(Scalar) -> String,

    requires
        data.callable(),
        nodal.wf(),
    ensures
        source_evaluated(*data, *source, block@, nodal.points(), time, width as nat, result),
{
    let components: usize = width / nodal.vertex_count();
    match source {
        FieldSource::Constant(values) => {
            if values.len() != components {
                return Err(
                    KrasisError::FieldLength {
                        field: block.to_owned(),
                        actual: values.len(),
                        expected: components,
                    },
                );
            }
            Ok(repeat(values, nodal.vertex_count()))
        },
        FieldSource::Nodal(values) => {
            if values.len() != width {
                return Err(
                    KrasisError::FieldLength {
                        field: block.to_owned(),
                        actual: values.len(),
                        expected: width,
                    },
                );
            }
            Ok(copy_scalars(values))
        },
        FieldSource::Fallible => sample_block(data, block, nodal, time, components),
        FieldSource::NotPointwise => Err(
            KrasisError::InitialSourceNotPointwise(block.to_owned()),
        ),
    }
}

fn project_block<S, T>(
    data: &InitialData<S, T>,
    block: &StateBlock,
    nodal: &NodalContext<'_>,
    time: Scalar,
) -> (result: Result<Vec<Scalar>, KrasisError>) where
    S: Fn(&str, &Vec<Scalar>, Scalar) -> Result<Vec<Scalar>, EvaluationRefusal>,
    T: Fn(Scalar) -> String,

    requires
        data.callable(),
        nodal.wf(),
        block@.start <= block@.end,
        has_source(data.bindings@, block@.id, data.bindings@.len() as int),
    ensures
        block_projected(*data, block@, nodal.points(), time, result),
{
    let width: usize = block.end() - block.start();
    let vertex_count: usize = nodal.vertex_count();
    if width % vertex_count != 0 {
        return Err(
            KrasisError::InitialDimensionMismatch {
                block: block.id().as_str().to_owned(),
                width,
                vertex_count,
            },
        );
    }
    let index: usize = find_source(&data.bindings, block.id().as_str());
    evaluate_field_source(
        data,
        &data.bindings[index].1,
        block.id().as_str(),
        nodal,
        time,
        width,
    )
}

/// Projects the data of blocks into a state.
pub(crate) fn project_blocks<S, T>(
    data: &InitialData<S, T>,
    blocks: &Vec<StateBlock>,
    nodal: &NodalContext<'_>,
    state: &mut SimulationState,
) -> (result: Result<(), KrasisError>) where
    S: Fn(&str, &Vec<Scalar>, Scalar) -> Result<Vec<Scalar>, EvaluationRefusal>,
    T: Fn(Scalar) -> String,

    requires
        data.callable(),
        nodal.wf(),
        old(state).wf(),
        forall|i: int|
            0 <= i < blocks@.len() ==> {
                &&& (#[trigger] blocks@[i])@.start <= blocks@[i]@.end
                &&& has_source(data.bindings@, blocks@[i]@.id, data.bindings@.len() as int)
            },
    ensures
        final(state).wf(),
        final(state)@.time == old(state)@.time,
        match result {
            Ok(_) => blocks_projected(
                *data,
                layout::block_models(blocks@),
                nodal.points(),
                blocks@.len() as int,
                old(state)@,
                final(state)@,
            ),
            Err(error) => blocks_failed(
                *data,
                layout::block_models(blocks@),
                nodal.points(),
                old(state)@,
                error@,
            ),
        },
{
    let ghost before = state@;
    let ghost models = layout::block_models(blocks@);
    let ghost points = nodal.points();
    let time = state.time();
    let mut index: usize = 0;
    while index < blocks.len()
        invariant
            index <= blocks@.len(),
            data.callable(),
            nodal.wf(),
            state.wf(),
            models == layout::block_models(blocks@),
            points == nodal.points(),
            before == old(state)@,
            time == before.time,
            state@.time == before.time,
            forall|i: int|
                0 <= i < blocks@.len() ==> {
                    &&& (#[trigger] blocks@[i])@.start <= blocks@[i]@.end
                    &&& has_source(data.bindings@, blocks@[i]@.id, data.bindings@.len() as int)
                },
            blocks_projected(*data, models, points, index as int, before, state@),
        decreases blocks.len() - index,
    {
        let block = &blocks[index];
        assert(models[index as int] == block@);
        let values = project_block(data, block, nodal, time);
        let ghost given = values;
        let ghost between = state@;
        assert(block_projected(*data, models[index as int], points, before.time, given));
        match values {
            Ok(values) => {
                match state.insert_field(FieldId::new(block.id().as_str()), values) {
                    Ok(_) => {},
                    Err(error) => {
                        return Err(error);
                    },
                }
                proof {
                    let next: int = index + 1;
                    assert(block_projected(
                        *data,
                        models[next - 1],
                        points,
                        before.time,
                        Ok(values),
                    ));
                    assert(inserts(between, models[next - 1].id, values@, state@));
                    assert(blocks_projected(*data, models, points, next - 1, before, between));
                }
            },
            Err(error) => {
                return Err(error);
            },
        }
        index += 1;
    }
    Ok(())
}

/// What projecting initial data over one mesh gives: a fresh state with every block's field
/// inserted, or the first failure.
pub open spec fn initial_state_given<S, T>(
    data: InitialData<S, T>,
    blocks: Seq<BlockModel>,
    points: Seq<Seq<Scalar>>,
    history_limit: nat,
    result: Result<SimulationState, KrasisError>,
) -> bool where
    S: Fn(&str, &Vec<Scalar>, Scalar) -> Result<Vec<Scalar>, EvaluationRefusal>,
    T: Fn(Scalar) -> String,
 {
    match sources_failure(blocks, data.bindings@) {
        Some(failure) => result matches Err(error) && error@ == failure,
        None => match result {
            Ok(state) => state.wf() && blocks_projected(
                data,
                blocks,
                points,
                blocks.len() as int,
                state_model::fresh(blocks, history_limit),
                state@,
            ),
            Err(error) => blocks_failed(
                data,
                blocks,
                points,
                state_model::fresh(blocks, history_limit),
                error@,
            ),
        },
    }
}

/// Projects a source for every block of a layout onto the vertices of a mesh, at the initial
/// time of a fresh state.
///
/// The sources must name every block exactly once. A block has as many components per
/// vertex as its width holds; a constant or a sample gives that many values, a nodal source
/// gives them for every vertex.
pub fn initial_state_from<S, T>(
    layout: &StateLayout,
    nodal: &NodalContext<'_>,
    history_limit: usize,
    data: &InitialData<S, T>,
) -> (result: Result<SimulationState, KrasisError>) where
    S: Fn(&str, &Vec<Scalar>, Scalar) -> Result<Vec<Scalar>, EvaluationRefusal>,
    T: Fn(Scalar) -> String,

    requires
        layout.wf(),
        nodal.wf(),
        data.callable(),
    ensures
        initial_state_given(*data, layout@, nodal.points(), history_limit as nat, result),
{
    match check_sources(layout, &data.bindings) {
        Ok(_) => {},
        Err(error) => {
            return Err(error);
        },
    }
    let mut state = SimulationState::new(layout.clone(), history_limit);
    let blocks = layout.blocks();
    proof {
        layout.lemma_wf();
        assert forall|i: int| 0 <= i < blocks@.len() implies {
            &&& (#[trigger] blocks@[i])@.start <= blocks@[i]@.end
            &&& has_source(data.bindings@, blocks@[i]@.id, data.bindings@.len() as int)
        } by {
            assert(layout@[i] == blocks@[i]@);
            lemma_all_have_sources(layout@, data.bindings@, 0, i);
        }
    }
    match project_blocks(data, blocks, nodal, &mut state) {
        Ok(_) => Ok(state),
        Err(error) => Err(error),
    }
}

pub proof fn lemma_all_have_sources(
    blocks: Seq<BlockModel>,
    bindings: Seq<(BlockId, FieldSource)>,
    from: int,
    i: int,
)
    requires
        missing_failure(blocks, bindings, from) is None,
        0 <= from <= i < blocks.len(),
    ensures
        has_source(bindings, blocks[i].id, bindings.len() as int),
    decreases i - from,
{
    if from < i {
        lemma_all_have_sources(blocks, bindings, from + 1, i);
    }
}

} // verus!

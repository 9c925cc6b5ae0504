//! Composition of two discretizations from distinct method families.
use crate::digest;
use crate::digest::digest_text;
use crate::error::{ErrorModel, KrasisError};
use crate::operator::BlockSpec;
use crate::rendering;
use crate::rendering::render_row;
use crate::scalar;
use crate::scalar::{find_non_finite, Scalar};
use crate::text;
use crate::text::{same_text, size_text};
use vstd::prelude::*;

verus! {

/// What the library reads of a concrete operator: its method family, its content identity
/// and its dimension.
#[derive(Clone, Debug, PartialEq, Eq)]
pub struct DiscreteOperator {
    pub family_identity: String,
    pub identity: String,
    pub dimension: usize,
}

/// Whether a matrix is finite and of the given shape.
pub open spec fn finite_matrix(matrix: Seq<Vec<Scalar>>, rows: nat, columns: nat) -> bool {
    &&& matrix.len() == rows
    &&& forall|i: int|
        0 <= i < matrix.len() ==> (#[trigger] matrix[i])@.len() == columns && scalar::all_finite(
            matrix[i]@,
        )
}

/// Whether some entry of a row is not zero.
pub open spec fn row_couples(row: Seq<Scalar>) -> bool {
    exists|j: int| 0 <= j < row.len() && !(#[trigger] row[j]).same_value(Scalar::nil())
}

/// Whether some entry of a matrix is not zero.
pub open spec fn couples(matrix: Seq<Vec<Scalar>>) -> bool {
    exists|i: int| 0 <= i < matrix.len() && row_couples((#[trigger] matrix[i])@)
}

pub open spec fn matrix_failure(label: Seq<char>, rows: nat, columns: nat) -> ErrorModel {
    ErrorModel::InvalidCoupling(
        label + " must be a finite "@ + text::decimal(rows) + " by "@ + text::decimal(columns)
            + " matrix"@,
    )
}

/// Entries between brackets, separated by a comma and a space, from a position on.
pub open spec fn entries_text(entries: Seq<Seq<char>>, from: int) -> Seq<char>
    decreases entries.len() - from,
{
    if from >= entries.len() {
        "]"@
    } else if from == entries.len() - 1 {
        entries[from] + "]"@
    } else {
        entries[from] + ", "@ + entries_text(entries, from + 1)
    }
}

/// A bracketed list of entries.
pub open spec fn list_text(entries: Seq<Seq<char>>) -> Seq<char> {
    "["@ + entries_text(entries, 0)
}

/// A matrix of texts as a list of lists.
pub open spec fn matrix_text(entries: Seq<Seq<Seq<char>>>) -> Seq<char> {
    list_text(entries.map_values(|row: Seq<Seq<char>>| list_text(row)))
}

/// Whether texts are what rendering the entries of a matrix gives.
pub open spec fn matrix_rendered<T: Fn(Scalar) -> String>(
    matrix: Seq<Vec<Scalar>>,
    render: T,
    texts: Seq<Seq<Seq<char>>>,
) -> bool {
    &&& texts.len() == matrix.len()
    &&& forall|i: int| 0 <= i < matrix.len() ==> rendering::row_rendered(matrix[i]@, render, #[trigger] texts[i])
}

/// What the identity of a pair is computed over.
pub open spec fn dialect_payload(
    left: DiscreteOperator,
    right: DiscreteOperator,
    left_from_right: Seq<Seq<Seq<char>>>,
    right_from_left: Seq<Seq<Seq<char>>>,
) -> Seq<char> {
    "krasis-cross-dialect/1:left-family="@ + left.family_identity@ + ":left="@ + left.identity@
        + ":right-family="@ + right.family_identity@ + ":right="@ + right.identity@ + ":lr="@
        + matrix_text(left_from_right) + ":rl="@ + matrix_text(right_from_left)
}

/// Two coupled operators from distinct method families. `left_from_right` contributes to
/// the left residual from the right state, `right_from_left` the other way.
#[derive(Clone, Debug, PartialEq, Eq)]
pub struct CrossDialectOperator {
    left: DiscreteOperator,
    right: DiscreteOperator,
    left_from_right: Vec<Vec<Scalar>>,
    right_from_left: Vec<Vec<Scalar>>,
    layout: Vec<BlockSpec>,
    identity: String,
}

/// What is wrong with the parts of a pair.
pub open spec fn pair_failure(
    left: DiscreteOperator,
    right: DiscreteOperator,
    left_from_right: Seq<Vec<Scalar>>,
    right_from_left: Seq<Vec<Scalar>>,
) -> Option<ErrorModel> {
    let rows = left.dimension as nat;
    let columns = right.dimension as nat;
    if left.family_identity@ == right.family_identity@ {
        Some(
            ErrorModel::InvalidCoupling(
                "cross-dialect composition requires distinct families, got `"@
                    + left.family_identity@ + "` twice"@,
            ),
        )
    } else if !finite_matrix(left_from_right, rows, columns) {
        Some(matrix_failure("left-from-right coupling"@, rows, columns))
    } else if !finite_matrix(right_from_left, columns, rows) {
        Some(matrix_failure("right-from-left coupling"@, columns, rows))
    } else if !couples(left_from_right) || !couples(right_from_left) {
        Some(
            ErrorModel::InvalidCoupling(
                "a real cross-dialect system requires nonzero coupling in both directions"@,
            ),
        )
    } else {
        None
    }
}

/// Whether blocks are the two operators by family and dimension.
pub open spec fn pair_blocks(
    left: DiscreteOperator,
    right: DiscreteOperator,
    blocks: Seq<BlockSpec>,
) -> bool {
    &&& blocks.len() == 2
    &&& blocks[0].name@ == left.family_identity@ && blocks[0].length == left.dimension
    &&& blocks[1].name@ == right.family_identity@ && blocks[1].length == right.dimension
}

/// Whether the identity is the digest over rendered matrices.
pub open spec fn pair_identified<T: Fn(Scalar) -> String>(
    left: DiscreteOperator,
    right: DiscreteOperator,
    left_from_right: Seq<Vec<Scalar>>,
    right_from_left: Seq<Vec<Scalar>>,
    render: T,
    identity: Seq<char>,
) -> bool {
    exists|first: Seq<Seq<Seq<char>>>, second: Seq<Seq<Seq<char>>>|
        {
            &&& #[trigger] matrix_rendered(left_from_right, render, first)
            &&& #[trigger] matrix_rendered(right_from_left, render, second)
            &&& identity == digest::digest_of(dialect_payload(left, right, first, second))
        }
}

/// What composing a pair gives; `accept` decides about its blocks.
pub open spec fn pair_made<B, T>(
    left: DiscreteOperator,
    right: DiscreteOperator,
    left_from_right: Seq<Vec<Scalar>>,
    right_from_left: Seq<Vec<Scalar>>,
    accept: B,
    render: T,
    result: Result<CrossDialectOperator, KrasisError>,
) -> bool where B: Fn(&Vec<BlockSpec>) -> Result<(), String>, T: Fn(Scalar) -> String {
    match pair_failure(left, right, left_from_right, right_from_left) {
        Some(failure) => result matches Err(error) && error@ == failure,
        None => exists|blocks: Vec<BlockSpec>, verdict: Result<(), String>|
            {
                &&& pair_blocks(left, right, blocks@)
                &&& #[trigger] call_ensures(accept, (&blocks,), verdict)
                &&& match verdict {
                    Err(message) => result matches Err(error) && error@
                        == ErrorModel::InvalidCoupling(message@),
                    Ok(_) => result matches Ok(operator) && {
                        &&& operator.wf()
                        &&& operator.left_part() == left
                        &&& operator.right_part() == right
                        &&& operator.left_coupling() == left_from_right
                        &&& operator.right_coupling() == right_from_left
                        &&& operator.blocks() == blocks@
                        &&& pair_identified(
                            left,
                            right,
                            left_from_right,
                            right_from_left,
                            render,
                            operator.identity_text(),
                        )
                    },
                }
            },
    }
}

fn is_finite_matrix(matrix: &Vec<Vec<Scalar>>, rows: usize, columns: usize) -> (result: bool)
    ensures
        result == finite_matrix(matrix@, rows as nat, columns as nat),
{
    if matrix.len() != rows {
        return false;
    }
    let mut index: usize = 0;
    while index < matrix.len()
        invariant
            index <= matrix@.len(),
            matrix@.len() == rows,
            forall|i: int|
                0 <= i < index ==> (#[trigger] matrix@[i])@.len() == columns
                    && scalar::all_finite(matrix@[i]@),
        decreases matrix.len() - index,
    {
        if matrix[index].len() != columns {
            return false;
        }
        match find_non_finite(&matrix[index]) {
            Some(_) => {
                assert(!scalar::all_finite(matrix@[index as int]@));
                return false;
            },
            None => {},
        }
        index += 1;
    }
    true
}

fn validate_matrix(
    matrix: &Vec<Vec<Scalar>>,
    rows: usize,
    columns: usize,
    label: &str,
) -> (result: Result<(), KrasisError>)
    ensures
        if finite_matrix(matrix@, rows as nat, columns as nat) {
            result is Ok
        } else {
            result matches Err(error) && error@ == matrix_failure(
                label@,
                rows as nat,
                columns as nat,
            )
        },
{
    if is_finite_matrix(matrix, rows, columns) {
        Ok(())
    } else {
        Err(
            KrasisError::InvalidCoupling(
                label.to_owned().concat(" must be a finite ").concat(
                    size_text(rows).as_str(),
                ).concat(" by ").concat(size_text(columns).as_str()).concat(" matrix"),
            ),
        )
    }
}

fn has_nonzero(matrix: &Vec<Vec<Scalar>>) -> (result: bool)
    ensures
        result == couples(matrix@),
{
    let mut index: usize = 0;
    while index < matrix.len()
        invariant
            index <= matrix@.len(),
            forall|i: int| 0 <= i < index ==> !row_couples((#[trigger] matrix@[i])@),
        decreases matrix.len() - index,
    {
        if row_has_nonzero(&matrix[index]) {
            assert(row_couples(matrix@[index as int]@));
            return true;
        }
        index += 1;
    }
    false
}

fn row_has_nonzero(row: &Vec<Scalar>) -> (result: bool)
    ensures
        result == row_couples(row@),
{
    let zero = Scalar::zero();
    let mut index: usize = 0;
    while index < row.len()
        invariant
            index <= row@.len(),
            zero == Scalar::nil(),
            forall|j: int| 0 <= j < index ==> (#[trigger] row@[j]).same_value(Scalar::nil()),
        decreases row.len() - index,
    {
        if !row[index].is_equal(&zero) {
            assert(!row@[index as int].same_value(Scalar::nil()));
            return true;
        }
        index += 1;
    }
    false
}

/// Writes a bracketed list.
fn write_list(entries: &Vec<String>) -> (result: String)
    ensures
        result@ == list_text(text::text_models(entries@)),
{
    let ghost models = text::text_models(entries@);
    let count: usize = entries.len();
    if count == 0 {
        let result = "[".to_owned().concat("]");
        return result;
    }
    let mut tail = entries[count - 1].clone().concat("]");
    let mut index: usize = count - 1;
    while index > 0
        invariant
            index < count,
            count == entries@.len(),
            models == text::text_models(entries@),
            tail@ == entries_text(models, index as int),
        decreases index,
    {
        index -= 1;
        assert(models[index as int] == entries@[index as int]@);
        tail = entries[index].clone().concat(", ").concat(tail.as_str());
    }
    "[".to_owned().concat(tail.as_str())
}

fn write_row<T: Fn(Scalar) -> String>(row: &Vec<Scalar>, render: &T) -> (result: String)
    requires
        forall|value: Scalar| call_requires(*render, (value,)),
    ensures
        exists|texts: Seq<Seq<char>>|
            #[trigger] rendering::row_rendered(row@, *render, texts) && result@ == list_text(texts),
{
    let entries = render_row(row, render);
    assert(rendering::row_rendered(row@, *render, text::text_models(entries@)));
    write_list(&entries)
}

fn write_matrix<T: Fn(Scalar) -> String>(matrix: &Vec<Vec<Scalar>>, render: &T) -> (result: String)
    requires
        forall|value: Scalar| call_requires(*render, (value,)),
    ensures
        exists|texts: Seq<Seq<Seq<char>>>|
            #[trigger] matrix_rendered(matrix@, *render, texts) && result@ == matrix_text(texts),
{
    let mut rows: Vec<String> = Vec::new();
    let ghost mut texts: Seq<Seq<Seq<char>>> = Seq::empty();
    let mut index: usize = 0;
    while index < matrix.len()
        invariant
            index <= matrix@.len(),
            rows@.len() == index,
            texts.len() == index,
            forall|value: Scalar| call_requires(*render, (value,)),
            forall|i: int|
                0 <= i < index ==> rendering::row_rendered(matrix@[i]@, *render, #[trigger] texts[i]),
            forall|i: int| 0 <= i < index ==> (#[trigger] rows@[i])@ == list_text(texts[i]),
        decreases matrix.len() - index,
    {
        let row = write_row(&matrix[index], render);
        proof {
            let given = choose|given: Seq<Seq<char>>|
                #[trigger] rendering::row_rendered(matrix@[index as int]@, *render, given) && row@ == list_text(
                    given,
                );
            texts = texts.push(given);
        }
        rows.push(row);
        index += 1;
    }
    proof {
        assert(matrix_rendered(matrix@, *render, texts));
        assert(text::text_models(rows@) =~= texts.map_values(
            |row: Seq<Seq<char>>| list_text(row),
        ));
    }
    write_list(&rows)
}

impl CrossDialectOperator {
    pub closed spec fn left_part(&self) -> DiscreteOperator {
        self.left
    }

    pub closed spec fn right_part(&self) -> DiscreteOperator {
        self.right
    }

    pub closed spec fn left_coupling(&self) -> Seq<Vec<Scalar>> {
        self.left_from_right@
    }

    pub closed spec fn right_coupling(&self) -> Seq<Vec<Scalar>> {
        self.right_from_left@
    }

    pub closed spec fn blocks(&self) -> Seq<BlockSpec> {
        self.layout@
    }

    pub closed spec fn identity_text(&self) -> Seq<char> {
        self.identity@
    }

    /// The unknowns of both operators.
    pub open spec fn size(&self) -> nat {
        (self.left_part().dimension + self.right_part().dimension) as nat
    }

    /// Distinct families, coupled in both directions by finite matrices of their shapes.
    pub open spec fn wf(&self) -> bool {
        &&& pair_failure(
            self.left_part(),
            self.right_part(),
            self.left_coupling(),
            self.right_coupling(),
        ) is None
        &&& pair_blocks(self.left_part(), self.right_part(), self.blocks())
        &&& self.size() <= usize::MAX
    }

    /// Composes two operators. `accept` is the block solver's verdict on the two blocks;
    /// `render` writes a scalar into the identity.
    pub fn new<B, T>(
        left: DiscreteOperator,
        right: DiscreteOperator,
        left_from_right: Vec<Vec<Scalar>>,
        right_from_left: Vec<Vec<Scalar>>,
        accept: &B,
        render: &T,
    ) -> (result: Result<CrossDialectOperator, KrasisError>) where
        B: Fn(&Vec<BlockSpec>) -> Result<(), String>,
        T: Fn(Scalar) -> String,

        requires
            left.dimension + right.dimension <= usize::MAX,
            forall|blocks: &Vec<BlockSpec>| call_requires(*accept, (blocks,)),
            forall|value: Scalar| call_requires(*render, (value,)),
        ensures
            pair_made(
                left,
                right,
                left_from_right@,
                right_from_left@,
                *accept,
                *render,
                result,
            ),
    {
        if same_text(left.family_identity.as_str(), right.family_identity.as_str()) {
            return Err(
                KrasisError::InvalidCoupling(
                    "cross-dialect composition requires distinct families, got `".to_owned().concat(
                        left.family_identity.as_str(),
                    ).concat("` twice"),
                ),
            );
        }
        match validate_matrix(
            &left_from_right,
            left.dimension,
            right.dimension,
            "left-from-right coupling",
        ) {
            Ok(_) => {},
            Err(error) => {
                return Err(error);
            },
        }
        match validate_matrix(
            &right_from_left,
            right.dimension,
            left.dimension,
            "right-from-left coupling",
        ) {
            Ok(_) => {},
            Err(error) => {
                return Err(error);
            },
        }
        if !has_nonzero(&left_from_right) || !has_nonzero(&right_from_left) {
            return Err(
                KrasisError::InvalidCoupling(
                    "a real cross-dialect system requires nonzero coupling in both directions".to_owned(),
                ),
            );
        }
        let mut layout: Vec<BlockSpec> = Vec::new();
        layout.push(
            BlockSpec { name: left.family_identity.clone(), length: left.dimension },
        );
        layout.push(
            BlockSpec { name: right.family_identity.clone(), length: right.dimension },
        );
        let verdict = accept(&layout);
        assert(call_ensures(*accept, (&layout,), verdict));
        match verdict {
            Ok(_) => {},
            Err(message) => {
                return Err(KrasisError::InvalidCoupling(message));
            },
        }
        let first = write_matrix(&left_from_right, render);
        let second = write_matrix(&right_from_left, render);
        let payload = "krasis-cross-dialect/1:left-family=".to_owned().concat(
            left.family_identity.as_str(),
        ).concat(":left=").concat(left.identity.as_str()).concat(":right-family=").concat(
            right.family_identity.as_str(),
        ).concat(":right=").concat(right.identity.as_str()).concat(":lr=").concat(
            first.as_str(),
        ).concat(":rl=").concat(second.as_str());
        let identity = digest_text(payload.as_str());
        proof {
            let lr = choose|texts: Seq<Seq<Seq<char>>>|
                #[trigger] matrix_rendered(left_from_right@, *render, texts) && first@
                    == matrix_text(texts);
            let rl = choose|texts: Seq<Seq<Seq<char>>>|
                #[trigger] matrix_rendered(right_from_left@, *render, texts) && second@
                    == matrix_text(texts);
            assert(matrix_rendered(left_from_right@, *render, lr));
            assert(matrix_rendered(right_from_left@, *render, rl));
            assert(payload@ == dialect_payload(left, right, lr, rl));
        }
        Ok(
            CrossDialectOperator {
                left,
                right,
                left_from_right,
                right_from_left,
                layout,
                identity,
            },
        )
    }

    pub fn identity(&self) -> (result: &str)
        ensures
            result@ == self.identity_text(),
    {
        self.identity.as_str()
    }

    pub fn left(&self) -> (result: &DiscreteOperator)
        ensures
            *result == self.left_part(),
    {
        &self.left
    }

    pub fn right(&self) -> (result: &DiscreteOperator)
        ensures
            *result == self.right_part(),
    {
        &self.right
    }

    pub(crate) fn left_matrix(&self) -> (result: &Vec<Vec<Scalar>>)
        ensures
            result@ == self.left_coupling(),
    {
        &self.left_from_right
    }

    pub(crate) fn right_matrix(&self) -> (result: &Vec<Vec<Scalar>>)
        ensures
            result@ == self.right_coupling(),
    {
        &self.right_from_left
    }

    pub fn block_layout(&self) -> (result: &Vec<BlockSpec>)
        ensures
            result@ == self.blocks(),
    {
        &self.layout
    }

    pub fn dimension(&self) -> (result: usize)
        requires
            self.wf(),
        ensures
            result == self.size(),
    {
        self.left.dimension + self.right.dimension
    }
}

} // verus!

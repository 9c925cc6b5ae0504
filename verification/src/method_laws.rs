//! What the identity of a pair of operators covers.
use crate::digest;
use crate::method;
use crate::method::DiscreteOperator;
use vstd::prelude::*;

verus! {

/// Whether a text ends an entry of a list.
spec fn stops(content: Seq<char>) -> bool {
    content.len() > 0 && (content[0] == ',' || content[0] == ']')
}

/// Whether a text holds neither a comma nor a closing bracket, as a rendered number does.
pub open spec fn plain(content: Seq<char>) -> bool {
    forall|i: int| 0 <= i < content.len() ==> (#[trigger] content[i]) != ',' && content[i] != ']'
}

/// Whether every entry of a matrix of texts is plain and every row has the given length.
pub open spec fn plain_matrix(entries: Seq<Seq<Seq<char>>>, columns: nat) -> bool {
    forall|i: int| 0 <= i < entries.len() ==> plain_row(#[trigger] entries[i], columns)
}

pub open spec fn plain_row(row: Seq<Seq<char>>, columns: nat) -> bool {
    row.len() == columns && forall|j: int| 0 <= j < row.len() ==> plain(#[trigger] row[j])
}

proof fn lemma_entry_split(
    first: Seq<char>,
    behind_first: Seq<char>,
    second: Seq<char>,
    behind_second: Seq<char>,
)
    requires
        plain(first),
        plain(second),
        stops(behind_first),
        stops(behind_second),
        first + behind_first == second + behind_second,
    ensures
        first == second,
        behind_first == behind_second,
{
    let whole = first + behind_first;
    if first.len() < second.len() {
        assert(whole[first.len() as int] == behind_first[0]);
        assert((second + behind_second)[first.len() as int] == second[first.len() as int]);
    } else if second.len() < first.len() {
        assert((second + behind_second)[second.len() as int] == behind_second[0]);
        assert(whole[second.len() as int] == first[second.len() as int]);
    }
    assert(whole.take(first.len() as int) =~= first);
    assert((second + behind_second).take(first.len() as int) =~= second);
    assert(whole.skip(first.len() as int) =~= behind_first);
    assert((second + behind_second).skip(first.len() as int) =~= behind_second);
}

proof fn lemma_row_read(
    first: Seq<Seq<char>>,
    behind_first: Seq<char>,
    second: Seq<Seq<char>>,
    behind_second: Seq<char>,
    from: int,
)
    requires
        plain_row(first, second.len()),
        plain_row(second, first.len()),
        0 <= from <= first.len(),
        method::entries_text(first, from) + behind_first == method::entries_text(second, from)
            + behind_second,
    ensures
        forall|j: int| from <= j < first.len() ==> first[j] == second[j],
        behind_first == behind_second,
    decreases first.len() - from,
{
    reveal_strlit("]");
    reveal_strlit(", ");
    let left = method::entries_text(first, from);
    let right = method::entries_text(second, from);
    if from >= first.len() {
        digest::lemma_same_beginning("]"@, behind_first, behind_second);
    } else if from == first.len() - 1 {
        assert(left + behind_first =~= first[from] + ("]"@ + behind_first));
        assert(right + behind_second =~= second[from] + ("]"@ + behind_second));
        lemma_entry_split(first[from], "]"@ + behind_first, second[from], "]"@ + behind_second);
        digest::lemma_same_beginning("]"@, behind_first, behind_second);
    } else {
        let rest_first = method::entries_text(first, from + 1) + behind_first;
        let rest_second = method::entries_text(second, from + 1) + behind_second;
        assert(left + behind_first =~= first[from] + (", "@ + rest_first));
        assert(right + behind_second =~= second[from] + (", "@ + rest_second));
        lemma_entry_split(first[from], ", "@ + rest_first, second[from], ", "@ + rest_second);
        digest::lemma_same_beginning(", "@, rest_first, rest_second);
        lemma_row_read(first, behind_first, second, behind_second, from + 1);
    }
}

proof fn lemma_list_read(
    first: Seq<Seq<char>>,
    behind_first: Seq<char>,
    second: Seq<Seq<char>>,
    behind_second: Seq<char>,
)
    requires
        plain_row(first, second.len()),
        plain_row(second, first.len()),
        method::list_text(first) + behind_first == method::list_text(second) + behind_second,
    ensures
        first == second,
        behind_first == behind_second,
{
    let left = method::entries_text(first, 0) + behind_first;
    let right = method::entries_text(second, 0) + behind_second;
    assert(method::list_text(first) + behind_first =~= "["@ + left);
    assert(method::list_text(second) + behind_second =~= "["@ + right);
    digest::lemma_same_beginning("["@, left, right);
    lemma_row_read(first, behind_first, second, behind_second, 0);
    assert(first =~= second);
}

spec fn row_texts(entries: Seq<Seq<Seq<char>>>) -> Seq<Seq<char>> {
    entries.map_values(|row: Seq<Seq<char>>| method::list_text(row))
}

proof fn lemma_rows_read(
    first: Seq<Seq<Seq<char>>>,
    behind_first: Seq<char>,
    second: Seq<Seq<Seq<char>>>,
    behind_second: Seq<char>,
    columns: nat,
    from: int,
)
    requires
        first.len() == second.len(),
        plain_matrix(first, columns),
        plain_matrix(second, columns),
        0 <= from <= first.len(),
        method::entries_text(row_texts(first), from) + behind_first == method::entries_text(
            row_texts(second),
            from,
        ) + behind_second,
    ensures
        forall|i: int| from <= i < first.len() ==> first[i] == second[i],
        behind_first == behind_second,
    decreases first.len() - from,
{
    let left = method::entries_text(row_texts(first), from);
    let right = method::entries_text(row_texts(second), from);
    if from >= first.len() {
        digest::lemma_same_beginning("]"@, behind_first, behind_second);
    } else {
        assert(plain_row(first[from], columns));
        assert(plain_row(second[from], columns));
        let upper = method::list_text(first[from]);
        let lower = method::list_text(second[from]);
        if from == first.len() - 1 {
            assert(left + behind_first =~= upper + ("]"@ + behind_first));
            assert(right + behind_second =~= lower + ("]"@ + behind_second));
            lemma_list_read(
                first[from],
                "]"@ + behind_first,
                second[from],
                "]"@ + behind_second,
            );
            digest::lemma_same_beginning("]"@, behind_first, behind_second);
        } else {
            let rest_first = method::entries_text(row_texts(first), from + 1) + behind_first;
            let rest_second = method::entries_text(row_texts(second), from + 1) + behind_second;
            assert(left + behind_first =~= upper + (", "@ + rest_first));
            assert(right + behind_second =~= lower + (", "@ + rest_second));
            lemma_list_read(
                first[from],
                ", "@ + rest_first,
                second[from],
                ", "@ + rest_second,
            );
            digest::lemma_same_beginning(", "@, rest_first, rest_second);
            lemma_rows_read(first, behind_first, second, behind_second, columns, from + 1);
        }
    }
}

proof fn lemma_matrix_read(
    first: Seq<Seq<Seq<char>>>,
    behind_first: Seq<char>,
    second: Seq<Seq<Seq<char>>>,
    behind_second: Seq<char>,
    columns: nat,
)
    requires
        first.len() == second.len(),
        plain_matrix(first, columns),
        plain_matrix(second, columns),
        method::matrix_text(first) + behind_first == method::matrix_text(second) + behind_second,
    ensures
        first == second,
        behind_first == behind_second,
{
    let left = method::entries_text(row_texts(first), 0) + behind_first;
    let right = method::entries_text(row_texts(second), 0) + behind_second;
    assert(method::matrix_text(first) + behind_first =~= "["@ + left);
    assert(method::matrix_text(second) + behind_second =~= "["@ + right);
    digest::lemma_same_beginning("["@, left, right);
    lemma_rows_read(first, behind_first, second, behind_second, columns, 0);
    assert(first =~= second);
}

/// Over one pair of operators, what the identity is computed over determines both coupling
/// matrices as they were rendered.
pub proof fn law_pair_identity_covers_couplings(
    left: DiscreteOperator,
    right: DiscreteOperator,
    left_from_right: Seq<Seq<Seq<char>>>,
    right_from_left: Seq<Seq<Seq<char>>>,
    other_left_from_right: Seq<Seq<Seq<char>>>,
    other_right_from_left: Seq<Seq<Seq<char>>>,
)
    requires
        left_from_right.len() == left.dimension,
        other_left_from_right.len() == left.dimension,
        right_from_left.len() == right.dimension,
        other_right_from_left.len() == right.dimension,
        plain_matrix(left_from_right, right.dimension as nat),
        plain_matrix(other_left_from_right, right.dimension as nat),
        plain_matrix(right_from_left, left.dimension as nat),
        plain_matrix(other_right_from_left, left.dimension as nat),
        method::dialect_payload(left, right, left_from_right, right_from_left)
            == method::dialect_payload(
            left,
            right,
            other_left_from_right,
            other_right_from_left,
        ),
    ensures
        left_from_right == other_left_from_right,
        right_from_left == other_right_from_left,
{
    let beginning = "krasis-cross-dialect/1:left-family="@ + left.family_identity@ + ":left="@
        + left.identity@ + ":right-family="@ + right.family_identity@ + ":right="@
        + right.identity@ + ":lr="@;
    let behind = ":rl="@ + method::matrix_text(right_from_left);
    let behind_other = ":rl="@ + method::matrix_text(other_right_from_left);
    assert(method::dialect_payload(left, right, left_from_right, right_from_left) =~= beginning + (
    method::matrix_text(left_from_right) + behind));
    assert(method::dialect_payload(left, right, other_left_from_right, other_right_from_left)
        =~= beginning + (method::matrix_text(other_left_from_right) + behind_other));
    digest::lemma_same_beginning(
        beginning,
        method::matrix_text(left_from_right) + behind,
        method::matrix_text(other_left_from_right) + behind_other,
    );
    lemma_matrix_read(
        left_from_right,
        behind,
        other_left_from_right,
        behind_other,
        right.dimension as nat,
    );
    digest::lemma_same_beginning(
        ":rl="@,
        method::matrix_text(right_from_left),
        method::matrix_text(other_right_from_left),
    );
    let nothing = Seq::<char>::empty();
    assert(method::matrix_text(right_from_left) + nothing =~= method::matrix_text(
        right_from_left,
    ));
    assert(method::matrix_text(other_right_from_left) + nothing =~= method::matrix_text(
        other_right_from_left,
    ));
    lemma_matrix_read(
        right_from_left,
        nothing,
        other_right_from_left,
        nothing,
        left.dimension as nat,
    );
}

} // verus!

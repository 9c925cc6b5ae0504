//! Rows of scalars written out by a caller's rendering.
use crate::scalar::Scalar;
use crate::text;
use vstd::prelude::*;

verus! {

/// Whether texts are what rendering the entries of a row gives.
pub open spec fn row_rendered<T: Fn(Scalar) -> String>(
    row: Seq<Scalar>,
    render: T,
    texts: Seq<Seq<char>>,
) -> bool {
    &&& texts.len() == row.len()
    &&& forall|j: int| 0 <= j < row.len() ==> entry_rendered(row[j], render, #[trigger] texts[j])
}

pub open spec fn entry_rendered<T: Fn(Scalar) -> String>(
    entry: Scalar,
    render: T,
    content: Seq<char>,
) -> bool {
    exists|rendered: String|
        rendered@ == content && #[trigger] call_ensures(render, (entry,), rendered)
}

/// Renders the entries of a row.
pub(crate) fn render_row<T: Fn(Scalar) -> String>(row: &Vec<Scalar>, render: &T) -> (result: Vec<
    String,
>)
    requires
        forall|value: Scalar| call_requires(*render, (value,)),
    ensures
        row_rendered(row@, *render, text::text_models(result@)),
{
    let mut entries: Vec<String> = Vec::new();
    let mut index: usize = 0;
    while index < row.len()
        invariant
            index <= row@.len(),
            entries@.len() == index,
            forall|value: Scalar| call_requires(*render, (value,)),
            forall|j: int|
                0 <= j < index ==> entry_rendered(row@[j], *render, (#[trigger] entries@[j])@),
        decreases row.len() - index,
    {
        let rendered = render(row[index]);
        assert(entry_rendered(row@[index as int], *render, rendered@));
        entries.push(rendered);
        index += 1;
    }
    proof {
        let texts = text::text_models(entries@);
        assert forall|j: int| 0 <= j < row@.len() implies entry_rendered(
            row@[j],
            *render,
            #[trigger] texts[j],
        ) by {
            assert(texts[j] == entries@[j]@);
        }
    }
    entries
}

} // verus!

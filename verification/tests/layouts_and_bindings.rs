//! Layouts, bindings, digests and error texts on given values.

use krasis::digest::{digest_bytes, digest_text};
use krasis::text::{decimal_text, is_blank, join_with, length_in_bytes, text_precedes};
use krasis::{
    block_state_layout, BlockId, FieldBlock, KrasisError, Scalar, SemanticId, StateBinding,
    StateBlock, StateLayout,
};

fn scalar(value: f64) -> Scalar {
    Scalar::from_bits(value.to_bits())
}

fn block(id: &str, start: usize, end: usize) -> StateBlock {
    StateBlock::new(BlockId::new(id), start..end)
}

fn layout(blocks: Vec<StateBlock>) -> Result<StateLayout, KrasisError> {
    StateLayout::new(blocks)
}

fn names(layout: &StateLayout) -> Vec<String> {
    layout
        .blocks()
        .iter()
        .map(|block| block.id().as_str().to_owned())
        .collect()
}

fn render(value: Scalar) -> String {
    format!("{}", f64::from_bits(value.to_bits()))
}

#[test]
fn digests_are_the_published_blake3_values() {
    assert_eq!(
        digest_text(""),
        "blake3:af1349b9f5f9a1a6a0404dea36dcc9499bcb25c9adc112b7cc9a93cae41f3262"
    );
    assert_eq!(
        digest_text("abc"),
        "blake3:6437b3ac38465133ffb63b75273a8db548c558465d79db03fd359c6cd5bd9d85"
    );
    assert_eq!(digest_bytes(&b"abc".to_vec()), digest_text("abc"));
}

#[test]
fn layouts_sort_their_blocks_and_spell_their_identity() {
    let sorted = layout(vec![block("velocity", 2, 5), block("p\u{e9}", 0, 2)]).unwrap();
    assert_eq!(names(&sorted), ["p\u{e9}", "velocity"]);
    assert_eq!(sorted.width(), 5);
    // Lengths count bytes, so the accented name has three.
    assert_eq!(sorted.identity(), "3:p\u{e9}:0:2;8:velocity:2:5;");
    assert_eq!(
        sorted.block(&BlockId::new("velocity")).unwrap().range(),
        2..5
    );
    assert!(sorted.block(&BlockId::new("absent")).is_none());
}

#[test]
fn layout_identities_tell_layouts_apart() {
    let joined = layout(vec![block("a:0:1;1:b", 0, 2)]).unwrap();
    let split = layout(vec![block("a", 0, 1), block("b", 1, 2)]).unwrap();
    assert_ne!(joined.identity(), split.identity());
}

#[test]
fn layouts_refuse_every_malformed_list() {
    assert_eq!(layout(vec![]), Err(KrasisError::EmptyLayout));
    assert_eq!(
        layout(vec![block(" \t", 0, 1)]),
        Err(KrasisError::EmptyBlockId)
    );
    assert_eq!(
        layout(vec![block("a", 0, 0)]),
        Err(KrasisError::EmptyBlock("a".to_owned()))
    );
    assert_eq!(
        layout(vec![block("a", 0, 1), block("a", 1, 2)]),
        Err(KrasisError::DuplicateBlock("a".to_owned()))
    );
    assert_eq!(
        layout(vec![block("a", 0, 2), block("b", 3, 4)]),
        Err(KrasisError::BlockGap {
            expected: 2,
            actual: 3
        })
    );
    assert_eq!(
        layout(vec![block("a", 0, 2), block("b", 1, 4)]),
        Err(KrasisError::OverlappingBlock {
            block: "b".to_owned(),
            start: 1,
            end: 4
        })
    );
}

#[test]
fn bindings_are_total_injective_and_read_both_ways() {
    let blocks = layout(vec![block("a", 0, 1), block("b", 1, 2)]).unwrap();
    let pair = |semantic: u32, id: &str| (SemanticId::new(semantic), BlockId::new(id));
    let binding = StateBinding::new(&blocks, vec![pair(7, "a"), pair(3, "b")]).unwrap();
    assert_eq!(binding.identity(), "3:1:b;7:1:a;");
    assert_eq!(binding.block_for(SemanticId::new(7)).unwrap().as_str(), "a");
    assert_eq!(binding.block_for(SemanticId::new(8)), None);
    assert_eq!(
        binding.semantic_for(&BlockId::new("b")),
        Some(SemanticId::new(3))
    );
    assert_eq!(binding.semantic_for(&BlockId::new("c")), None);
    let named: Vec<String> = binding
        .blocks()
        .iter()
        .map(|id| id.as_str().to_owned())
        .collect();
    assert_eq!(named, ["b", "a"]);

    let refused = |pairs| StateBinding::new(&blocks, pairs).unwrap_err();
    assert_eq!(
        refused(vec![pair(0, "c"), pair(1, "a")]),
        KrasisError::StateBindingUnknownBlock("c".to_owned())
    );
    assert_eq!(
        refused(vec![pair(0, "a"), pair(1, "a")]),
        KrasisError::StateBindingDuplicateBlock("a".to_owned())
    );
    assert_eq!(
        refused(vec![pair(4, "a"), pair(4, "b")]),
        KrasisError::StateBindingDuplicateSemanticId(4)
    );
    assert_eq!(
        refused(vec![pair(0, "a")]),
        KrasisError::StateBindingIncomplete
    );
}

#[test]
fn field_blocks_become_named_bound_blocks() {
    let fields = vec![
        FieldBlock {
            variable: 9,
            offset: 0,
            extent: 4,
        },
        FieldBlock {
            variable: 2,
            offset: 4,
            extent: 1,
        },
    ];
    let (blocks, binding) = block_state_layout(&fields).unwrap();
    assert_eq!(blocks.identity(), "7:field_9:0:4;7:field_2:4:5;");
    assert_eq!(
        binding.block_for(SemanticId::new(9)).unwrap().as_str(),
        "field_9"
    );
}

#[test]
fn errors_say_what_they_hold() {
    let text = |error: KrasisError| error.message(&render);
    assert_eq!(
        text(KrasisError::EmptyLayout),
        "a coupled state layout must contain at least one block"
    );
    assert_eq!(
        text(KrasisError::BlockGap {
            expected: 12,
            actual: 30
        }),
        "block layout has a gap: expected the next block at 12, found 30"
    );
    assert_eq!(
        text(KrasisError::OverlappingBlock {
            block: "b".to_owned(),
            start: 1,
            end: 4
        }),
        "block `b` range 1..4 overlaps an existing block"
    );
    assert_eq!(
        text(KrasisError::FieldLength {
            field: "u".to_owned(),
            actual: 3,
            expected: 2
        }),
        "field `u` has length 3, expected 2"
    );
    assert_eq!(
        text(KrasisError::InvalidCommitTime {
            time: scalar(0.25),
            current: scalar(1.5)
        }),
        "commit time 0.25 must be finite and no earlier than 1.5"
    );
    assert_eq!(
        text(KrasisError::EvaluationRefused {
            code: "X1".to_owned(),
            origin: "here".to_owned(),
            message: "because".to_owned()
        }),
        "X1 at here: because"
    );
    assert_eq!(
        text(KrasisError::SolveDidNotConverge {
            algorithm: "minres".to_owned(),
            iterations: 40
        }),
        "minres did not converge within the configured tolerance after 40 iterations"
    );
    assert_eq!(
        text(KrasisError::InitialDimensionMismatch {
            block: "u".to_owned(),
            width: 7,
            vertex_count: 2
        }),
        "block `u` has width 7, which is not a whole number of components over 2 vertices"
    );
    assert_eq!(
        text(KrasisError::StateBindingDuplicateSemanticId(u32::MAX)),
        "state binding names semantic id `4294967295` more than once"
    );
}

#[test]
fn texts_are_measured_compared_and_joined() {
    assert_eq!(decimal_text(0), "0");
    assert_eq!(decimal_text(u64::MAX), "18446744073709551615");
    assert_eq!(length_in_bytes("\u{e9}\u{1f30d}"), 6);
    assert!(is_blank(" \n\u{3000}"));
    assert!(!is_blank(" x "));
    // The order of texts is the order of their characters.
    assert!(text_precedes("a", "ab"));
    assert!(text_precedes("ab", "b"));
    assert!(!text_precedes("b", "b"));
    let parts = vec!["x".to_owned(), "".to_owned(), "y".to_owned()];
    assert_eq!(join_with(&parts, ":"), "x::y");
}

#[test]
fn scalars_compare_as_floats_and_by_their_bits() {
    let values = [
        f64::NEG_INFINITY,
        -2.5,
        -0.0,
        0.0,
        5.0e-324,
        1.0,
        f64::MAX,
        f64::INFINITY,
        f64::NAN,
    ];
    for left in values {
        assert_eq!(scalar(left).is_finite(), left.is_finite());
        assert_eq!(scalar(left).is_positive(), left > 0.0);
        for right in values {
            assert_eq!(scalar(left).is_below(&scalar(right)), left < right);
            assert_eq!(scalar(left).is_equal(&scalar(right)), left == right);
            assert_eq!(scalar(left).is_at_most(&scalar(right)), left <= right);
            assert_eq!(scalar(left).is_within(&scalar(right)), left.abs() <= right);
        }
    }
    assert!(scalar(-0.0).is_negative_zero());
    assert_ne!(scalar(0.0), scalar(-0.0));
    assert_eq!(Scalar::zero(), scalar(0.0));
    assert_eq!(Scalar::one(), scalar(1.0));
}

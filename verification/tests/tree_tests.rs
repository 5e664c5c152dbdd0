use nglayoutng::allocator::Allocator;
use nglayoutng::geometry::{Au, LogicalMargin, PhysicalSides, WritingMode};
use nglayoutng::layout_tree::{
    ContainerKind, InsertionPoint, LayoutNode, LayoutNodeId, LayoutTree, LeafKind,
};

use nglayoutng::style::{
    ComputedStyle, Display, LengthPercentage, Percentage, Position, PseudoElement, WhiteSpace,
};

fn inline_style() -> ComputedStyle {
    let mut style = ComputedStyle::initial();
    style.display = Display::inline();
    style.finish(false)
}

fn block_style() -> ComputedStyle {
    let mut style = ComputedStyle::initial();
    style.display = Display::block();
    style.finish(false)
}

#[test]
fn allocator_reuses_freed_slots() {
    let mut arena: Allocator<u32> = Default::default();
    let a = arena.allocate(10);
    let b = arena.allocate(20);
    assert_eq!(arena.len(), 2);
    assert_eq!(arena.get(a).copied(), Some(10));
    let gone = arena.deallocate(a);
    assert_eq!(gone, 10);
    assert_eq!(arena.len(), 1);
    assert!(arena.get(a).is_none());
    let c = arena.allocate(30);
    assert_eq!(c, a, "the freed slot is reused");
    assert_eq!(arena.get(b).copied(), Some(20));
    assert!(!arena.is_empty());
}

#[test]
fn tree_root_is_viewport_block() {
    let tree = LayoutTree::new();
    let root = tree.root();
    let node = tree.node(root);
    assert!(node.is_block_container());
    assert_eq!(node.style.pseudo, Some(PseudoElement::Viewport));
    assert!(node.parent.is_none());
    assert!(node.first_child().is_none());
}

#[test]
fn insert_keeps_sibling_links_consistent() {
    let mut tree = LayoutTree::new();
    let root = tree.root();
    let a = tree.alloc_node(LayoutNode::new_container(block_style(), ContainerKind::block()));
    tree.insert_unchecked(a, InsertionPoint { parent: root, prev_sibling: None });
    let b = tree.alloc_node(LayoutNode::new_container(block_style(), ContainerKind::block()));
    tree.insert_unchecked(b, InsertionPoint { parent: root, prev_sibling: Some(a) });
    let c = tree.alloc_node(LayoutNode::new_container(block_style(), ContainerKind::block()));
    tree.insert_unchecked(c, InsertionPoint { parent: root, prev_sibling: Some(b) });

    // forward order: a, b, c
    assert_eq!(tree.node(root).first_child(), Some(a));
    assert_eq!(tree.node(a).next_sibling, Some(b));
    assert_eq!(tree.node(b).next_sibling, Some(c));
    assert_eq!(tree.node(c).next_sibling, None);
    // backward agrees
    assert_eq!(tree.node(root).last_child(), Some(c));
    assert_eq!(tree.node(c).prev_sibling, Some(b));
    assert_eq!(tree.node(b).prev_sibling, Some(a));
    assert_eq!(tree.node(a).prev_sibling, None);
}

#[test]
fn detach_then_insert_restores_position() {
    let mut tree = LayoutTree::new();
    let root = tree.root();
    let a = tree.alloc_node(LayoutNode::new_container(block_style(), ContainerKind::block()));
    tree.insert_unchecked(a, InsertionPoint { parent: root, prev_sibling: None });
    let b = tree.alloc_node(LayoutNode::new_container(block_style(), ContainerKind::block()));
    tree.insert_unchecked(b, InsertionPoint { parent: root, prev_sibling: Some(a) });
    let c = tree.alloc_node(LayoutNode::new_container(block_style(), ContainerKind::block()));
    tree.insert_unchecked(c, InsertionPoint { parent: root, prev_sibling: Some(b) });

    // detach the middle box and reinsert it at the returned point
    let ip = tree.detach_unchecked(b).expect("b had a parent");
    assert_eq!(ip.parent, root);
    assert_eq!(ip.prev_sibling, Some(a));
    assert_eq!(tree.node(a).next_sibling, Some(c));
    assert_eq!(tree.node(c).prev_sibling, Some(a));
    assert!(tree.node(b).parent.is_none());
    tree.insert_unchecked(b, ip);
    assert_eq!(tree.node(a).next_sibling, Some(b));
    assert_eq!(tree.node(b).next_sibling, Some(c));
    assert_eq!(tree.node(b).prev_sibling, Some(a));
    assert_eq!(tree.node(root).first_child(), Some(a));
    assert_eq!(tree.node(root).last_child(), Some(c));
}

#[test]
fn detach_first_and_last_update_parent_handles() {
    let mut tree = LayoutTree::new();
    let root = tree.root();
    let a = tree.alloc_node(LayoutNode::new_container(inline_style(), ContainerKind::inline()));
    tree.insert_unchecked(a, InsertionPoint { parent: root, prev_sibling: None });
    let b = tree.alloc_node(LayoutNode::new_leaf(
        inline_style(),
        LeafKind::Text { text: "hi".chars().collect() },
    ));
    tree.insert_unchecked(b, InsertionPoint { parent: root, prev_sibling: Some(a) });
    let ip = tree.detach_unchecked(a).unwrap();
    assert_eq!(tree.node(root).first_child(), Some(b));
    assert_eq!(ip.prev_sibling, None);
    let ip_b = tree.detach_unchecked(b).unwrap();
    assert_eq!(tree.node(root).first_child(), None);
    assert_eq!(tree.node(root).last_child(), None);
    assert_eq!(ip_b.parent, root);
}

#[test]
fn detach_of_detached_box_returns_none() {
    let mut tree = LayoutTree::new();
    let a = tree.alloc_node(LayoutNode::new_container(block_style(), ContainerKind::block()));
    assert!(tree.detach_unchecked(a).is_none());
}

#[test]
fn flow_checker_flags_mixed_children() {
    let mut tree = LayoutTree::new();
    let root = tree.root();
    let a = tree.alloc_node(LayoutNode::new_container(block_style(), ContainerKind::block()));
    tree.insert_unchecked(a, InsertionPoint { parent: root, prev_sibling: None });
    assert!(tree.assert_consistent(), "all-block children are homogeneous");
    // Splice an inline next to the block through the raw primitive:
    // the checker must see the mix.
    let b = tree.alloc_node(LayoutNode::new_container(inline_style(), ContainerKind::inline()));
    tree.insert_unchecked(b, InsertionPoint { parent: root, prev_sibling: Some(a) });
    assert!(!tree.container_flow_consistent(root));
    assert!(!tree.assert_consistent());
    // Out-of-flow boxes are exempt from the invariant.
    let ip = tree.detach_unchecked(b).unwrap();
    let _ = ip;
    assert!(tree.assert_consistent());
}

#[test]
fn style_display_queries() {
    let block = Display::block();
    assert!(block.is_block_outside());
    assert!(!block.is_inline_outside());
    let inline = Display::inline();
    assert!(inline.is_inline_outside());
    assert!(inline.is_inline_inside());
    assert_eq!(inline.blockify(), Display::block());
    assert_eq!(block.blockify(), block);
}

#[test]
fn style_finish_blockifies_out_of_flow() {
    let mut style = ComputedStyle::initial();
    style.display = Display::inline();
    style.position = Position::Absolute;
    let finished = style.finish(false);
    assert!(finished.display.is_block_outside());
    assert_eq!(finished.original_display, Display::inline());
    assert!(finished.is_out_of_flow());
}

#[test]
fn white_space_policies() {
    assert!(WhiteSpace::Normal.collapses_spaces());
    assert!(WhiteSpace::Normal.collapses_newlines());
    assert!(!WhiteSpace::Pre.collapses_spaces());
    assert!(WhiteSpace::PreLine.collapses_spaces());
    assert!(!WhiteSpace::PreLine.collapses_newlines());
}

#[test]
fn length_percentage_resolution() {
    let lp = LengthPercentage { fixed: nglayoutng::style::Length(Au(120)), percentage: Some(Percentage(5000)) };
    // 120 fixed + 50% of 600
    assert_eq!(lp.resolve(Au(600)).0, 120 + 300);
    let zero = LengthPercentage::zero();
    assert!(zero.is_zero());
    assert_eq!(zero.resolve(Au(600)).0, 0);
    assert_eq!(lp.maybe_resolve(None), None);
    assert_eq!(lp.maybe_resolve(Some(Au(600))).map(|a| a.0), Some(420));
}

#[test]
fn au_saturates() {
    assert_eq!(Au(i32::MAX).saturating_add(Au(1)).0, i32::MAX);
    assert_eq!(Au(i32::MIN).saturating_sub(Au(1)).0, i32::MIN);
    assert_eq!(Au(2).saturating_add(Au(3)).0, 5);
    assert_eq!(Au::from_px(16).0, 960);
}

#[test]
fn logical_margin_mapping_horizontal_rtl() {
    let wm = WritingMode { horizontal: true, inline_reversed: true, block_reversed: false };
    let m = LogicalMargin::from_physical(
        wm,
        PhysicalSides { top: Au(1), right: Au(2), bottom: Au(3), left: Au(4) },
    );
    assert_eq!(m.block_start, Au(1));
    assert_eq!(m.block_end, Au(3));
    assert_eq!(m.inline_start, Au(2));
    assert_eq!(m.inline_end, Au(4));
}

#[test]
fn viewport_style_is_anonymous_block() {
    let style = ComputedStyle::for_viewport();
    assert!(style.is_anonymous());
    assert!(style.display.is_block_outside());
    let wrapper = ComputedStyle::for_inline_inside_block_wrapper();
    assert_eq!(wrapper.pseudo, Some(PseudoElement::InlineInsideBlockWrapper));
    let ib = ComputedStyle::for_ib_split_block_wrapper();
    assert_eq!(ib.pseudo, Some(PseudoElement::BlockInsideInlineWrapper));
    assert!(PseudoElement::Before.is_anonymous() == false);
}

#[test]
fn container_kinds() {
    let b = ContainerKind::block();
    let i = ContainerKind::inline();
    assert!(b.is_block() && !b.is_inline());
    assert!(i.is_inline() && !i.is_block());
    let _id = LayoutNodeId(7);
}

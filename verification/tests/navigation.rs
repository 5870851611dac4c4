use hiera::{
    ByteRange, Cursor, CursorExpansion, Expansion, FetchRequest, FetchResponse, LoadOutcome,
    Loader, Navigator, Reader,
};
use std::collections::HashMap;
use std::sync::Arc;
use std::time::Duration;

struct TestLoader {
    children: HashMap<u8, Vec<u8>>,
    id_offset: u8,
}

impl Loader for TestLoader {
    type Item = u8;
    type ItemId = u8;
    type ContentRef = u8;
    type ItemInfo = u8;
    type Content = u8;
    type Error = std::io::Error;

    fn item_id(&self, item: &u8) -> u8 {
        item + self.id_offset
    }
}

impl Reader for TestLoader {}

impl TestLoader {
    fn new(pairs: Vec<(u8, Vec<u8>)>) -> Self {
        TestLoader { children: pairs.into_iter().collect(), id_offset: 0 }
    }

    fn expand(&self, item: u8) -> Expansion<u8, u8> {
        Expansion {
            children: self.children.get(&item).cloned().unwrap_or_default(),
            contents: vec![item],
        }
    }
}

type TestCursor = Cursor<TestLoader, Vec<u8>>;

fn root_of(navigator: &Navigator<TestLoader, Vec<u8>>, item: u8) -> TestCursor {
    // The root state is the path of items so far.
    navigator.root_cursor(item, vec![item])
}

/// Runs one expansion the way the asynchronous runtime does: describe each
/// child (here the info is the item itself), derive its state from the path
/// parent, and hand the state back.
fn expand(loader: &TestLoader, cursor: &TestCursor) -> CursorExpansion<TestLoader, Vec<u8>> {
    let mut pending = cursor.begin_expand(loader.expand(*cursor.item()));
    while let Some(item) = pending.next_child() {
        let info = *item;
        let mut state = pending.parent().state().clone();
        state.push(info);
        pending.accept(state);
    }
    pending.finish()
}

fn siblings(loader: &TestLoader, cursor: &TestCursor) -> Vec<TestCursor> {
    let candidates = match cursor.parent() {
        Some(parent) => expand(parent.loader(), &parent).children,
        None => Vec::new(),
    };
    cursor.siblings_among(candidates)
}

#[test]
fn cursors_retain_state_ancestry_and_contents() {
    let navigator = Navigator::new(TestLoader::new(vec![(1, vec![2, 3]), (2, vec![4])]));
    let loader = navigator.loader();

    let root = root_of(&navigator, 1);
    assert_eq!(root.state(), &[1]);
    assert!(root.parent().is_none());

    let expansion = expand(loader, &root);
    assert_eq!(expansion.contents, [1]);
    let left = expansion.children[0].clone();
    assert_eq!(left.state(), &[1, 2]);
    assert_eq!(left.parent().unwrap().item(), &1);

    let siblings = siblings(loader, &left);
    assert_eq!(siblings.len(), 1);
    assert_eq!(siblings[0].item(), &3);
    assert_eq!(siblings[0].state(), &[1, 3]);
}

#[test]
fn root_has_no_parent_and_no_siblings() {
    let navigator = Navigator::new(TestLoader::new(vec![(7, vec![8])]));
    let root = root_of(&navigator, 7);
    assert!(root.parent().is_none());
    assert!(siblings(navigator.loader(), &root).is_empty());
    // Even given candidates, a root keeps none of them.
    let expansion = expand(navigator.loader(), &root);
    assert!(root.siblings_among(expansion.children).is_empty());
}

#[test]
fn children_come_in_source_order() {
    let navigator = Navigator::new(TestLoader::new(vec![(1, vec![5, 4, 6])]));
    let root = root_of(&navigator, 1);
    let expansion = expand(navigator.loader(), &root);
    let items: Vec<u8> = expansion.children.iter().map(|c| *c.item()).collect();
    assert_eq!(items, vec![5, 4, 6]);
    let states: Vec<Vec<u8>> = expansion.children.iter().map(|c| c.state().clone()).collect();
    assert_eq!(states, vec![vec![1, 5], vec![1, 4], vec![1, 6]]);
}

#[test]
fn leaf_expansion_has_no_children_but_keeps_contents() {
    let navigator = Navigator::new(TestLoader::new(vec![]));
    let root = root_of(&navigator, 9);
    let expansion = expand(navigator.loader(), &root);
    assert!(expansion.children.is_empty());
    assert_eq!(expansion.contents, vec![9]);
}

#[test]
fn pending_expansion_offers_children_one_at_a_time() {
    let navigator = Navigator::new(TestLoader::new(vec![(1, vec![2, 3])]));
    let root = root_of(&navigator, 1);
    let mut pending = root.begin_expand(navigator.loader().expand(1));
    assert_eq!(pending.next_child(), Some(&2));
    assert_eq!(pending.parent().item(), &1);
    pending.accept(vec![42]);
    assert_eq!(pending.next_child(), Some(&3));
    pending.accept(vec![43]);
    assert_eq!(pending.next_child(), None);
    let expansion = pending.finish();
    assert_eq!(expansion.children.len(), 2);
    assert_eq!(expansion.children[0].state(), &[42]);
    assert_eq!(expansion.children[1].state(), &[43]);
    assert_eq!(expansion.children[1].item(), &3);
}

#[test]
fn parent_of_child_is_the_expanded_cursor() {
    let navigator = Navigator::new(TestLoader::new(vec![(1, vec![2, 3]), (2, vec![4])]));
    let loader = navigator.loader();
    let root = root_of(&navigator, 1);
    let left = expand(loader, &root).children.remove(0);
    let grandchild = expand(loader, &left).children.remove(0);
    assert_eq!(grandchild.item(), &4);
    assert_eq!(grandchild.state(), &[1, 2, 4]);

    let up = grandchild.parent().unwrap();
    assert_eq!(up.item(), &2);
    assert_eq!(up.state(), &[1, 2]);
    let top = up.parent().unwrap();
    assert_eq!(top.item(), &1);
    assert_eq!(top.state(), &[1]);
    assert!(top.parent().is_none());
}

#[test]
fn siblings_drop_every_candidate_with_the_same_identity() {
    let navigator = Navigator::new(TestLoader::new(vec![(1, vec![2, 3, 2, 5])]));
    let loader = navigator.loader();
    let root = root_of(&navigator, 1);
    let children = expand(loader, &root).children;
    let first = children[0].clone();
    let kept: Vec<u8> = siblings(loader, &first).iter().map(|c| *c.item()).collect();
    assert_eq!(kept, vec![3, 5]);
    let middle = children[1].clone();
    let kept: Vec<u8> = siblings(loader, &middle).iter().map(|c| *c.item()).collect();
    assert_eq!(kept, vec![2, 2, 5]);
}

#[test]
fn item_id_comes_from_the_loader() {
    let mut loader = TestLoader::new(vec![(1, vec![2])]);
    loader.id_offset = 100;
    let navigator = Navigator::new(loader);
    let root = root_of(&navigator, 1);
    assert_eq!(root.item_id(), 101);
    let child = expand(navigator.loader(), &root).children.remove(0);
    assert_eq!(child.item_id(), 102);
}

#[test]
fn clones_keep_their_position() {
    let navigator = Navigator::new(TestLoader::new(vec![(1, vec![2])]));
    let root = root_of(&navigator, 1);
    let child = expand(navigator.loader(), &root).children.remove(0);
    let copy = child.clone();
    assert_eq!(copy.item(), child.item());
    assert_eq!(copy.state(), child.state());
    assert_eq!(copy.parent().unwrap().item(), &1);
    let navigator_copy = navigator.clone();
    assert_eq!(navigator_copy.loader().children.len(), 1);
}

#[test]
fn shared_loader_is_the_one_handed_in() {
    let shared = Arc::new(TestLoader::new(vec![(3, vec![4, 5])]));
    let navigator: Navigator<TestLoader, Vec<u8>> = Navigator::from_shared(Arc::clone(&shared));
    assert!(std::ptr::eq(navigator.loader(), &*shared));
    let root = root_of(&navigator, 3);
    assert_eq!(expand(navigator.loader(), &root).children.len(), 2);
}

#[test]
fn loader_data_types_compare_by_value() {
    let range = ByteRange { start: 10, end: Some(20) };
    let request = FetchRequest { uri: "tiles/root.json".to_string(), range: Some(range) };
    assert_eq!(request.clone(), request);
    assert_ne!(request, FetchRequest { uri: "tiles/root.json".to_string(), range: None });

    let response = FetchResponse {
        bytes: bytes::Bytes::from_static(b"abc"),
        content_type: Some("application/json".to_string()),
    };
    let copy = response.clone();
    assert_eq!(copy.bytes.as_ref(), b"abc");
    assert_eq!(copy, response);

    let retry: LoadOutcome<u8> = LoadOutcome::Retry { after: Duration::from_millis(250) };
    assert_eq!(retry.clone(), LoadOutcome::Retry { after: Duration::from_millis(250) });
    assert_ne!(LoadOutcome::Ready(1u8), LoadOutcome::Empty);

    let expansion: Expansion<u8, u8> = Expansion { children: vec![1, 2], contents: vec![] };
    assert_eq!(expansion.clone(), expansion);
}

#[test]
fn cursors_reach_their_navigators_loader() {
    let shared = Arc::new(TestLoader::new(vec![(1, vec![2])]));
    let navigator: Navigator<TestLoader, Vec<u8>> = Navigator::from_shared(Arc::clone(&shared));
    let root = root_of(&navigator, 1);
    assert!(std::ptr::eq(root.loader(), &*shared));
    let child = expand(root.loader(), &root).children.remove(0);
    assert!(std::ptr::eq(child.loader(), &*shared));
}

#[test]
fn ancestry_ends_at_the_root_after_depth_minus_one_steps() {
    let navigator = Navigator::new(TestLoader::new(vec![(1, vec![2]), (2, vec![3]), (3, vec![4])]));
    let loader = navigator.loader();
    let mut cursor = root_of(&navigator, 1);
    for _ in 0..3 {
        cursor = expand(loader, &cursor).children.remove(0);
    }
    assert_eq!(cursor.state(), &[1, 2, 3, 4]);
    let mut steps = 0;
    while let Some(parent) = cursor.parent() {
        cursor = parent;
        steps += 1;
    }
    assert_eq!(steps, 3);
    assert_eq!(cursor.item(), &1);
    assert_eq!(cursor.state(), &[1]);
}

#[test]
fn siblings_are_mutual_and_cover_the_children() {
    let navigator = Navigator::new(TestLoader::new(vec![(1, vec![2, 3, 4])]));
    let loader = navigator.loader();
    let root = root_of(&navigator, 1);
    let children = expand(loader, &root).children;
    for a in &children {
        let mut ids: Vec<u8> = siblings(loader, a).iter().map(|c| c.item_id()).collect();
        for b in &children {
            if b.item_id() != a.item_id() {
                assert!(ids.contains(&b.item_id()));
            }
        }
        ids.push(a.item_id());
        ids.sort();
        assert_eq!(ids, vec![2, 3, 4]);
    }
}

#[test]
fn states_are_snapshots_that_later_navigation_leaves_alone() {
    let navigator = Navigator::new(TestLoader::new(vec![(1, vec![2, 3])]));
    let loader = navigator.loader();
    let root = root_of(&navigator, 1);
    let left = expand(loader, &root).children.remove(0);
    let _ = siblings(loader, &left);
    assert_eq!(root.state(), &[1]);
    let parent = left.parent().unwrap();
    assert!(std::ptr::eq(parent.state(), root.state()));
    assert!(std::ptr::eq(parent.item(), root.item()));
}

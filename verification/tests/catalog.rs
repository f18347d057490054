use promptr::domain::{
    CatalogSnapshot, DomainError, Metadata, Node, NodeBody, NodeHeader, NodeId, NonEmptyChildren,
    Revision, Symbol, XmlText,
};

fn id(value: i64) -> NodeId {
    NodeId::new(value).unwrap()
}

fn node(value: i64, symbol: &str, body: NodeBody) -> Node {
    Node::from_parts(
        NodeHeader {
            id: id(value),
            symbol: Symbol::new(symbol).unwrap(),
            kind: body.kind(),
            revision: Revision::new(1).unwrap(),
            metadata: Metadata::default(),
            created_at_ms: 0,
            updated_at_ms: 0,
        },
        body,
    )
    .unwrap()
}

fn fragment(value: i64, symbol: &str, text: &str) -> Node {
    node(value, symbol, NodeBody::Fragment(XmlText::new(text).unwrap()))
}

fn prompt(value: i64, symbol: &str, children: Vec<NodeId>) -> Node {
    node(value, symbol, NodeBody::Prompt(NonEmptyChildren::new(children).unwrap()))
}

fn count_of(counts: &[(NodeId, u64)], target: NodeId) -> u64 {
    counts.iter().find(|(node, _)| *node == target).map(|(_, count)| *count).unwrap()
}

#[test]
fn canonical_render_preserves_duplicate_occurrences_and_order() {
    let snapshot = CatalogSnapshot::new(vec![
        fragment(1, "A", "<&>\"'"),
        fragment(2, "B", "b"),
        prompt(3, "Root", vec![id(2), id(1), id(1)]),
    ])
    .unwrap();
    assert_eq!(
        snapshot.render_xml_vec(id(3)).unwrap(),
        b"<Root><B>b</B><A>&lt;&amp;&gt;\"'</A><A>&lt;&amp;&gt;\"'</A></Root>\n"
    );
    assert_eq!(count_of(&snapshot.occurrence_counts(id(3)).unwrap(), id(1)), 2);
}

#[test]
fn shared_subgraph_counts_expanded_paths() {
    let snapshot = CatalogSnapshot::new(vec![
        fragment(1, "Leaf", "x"),
        prompt(2, "Shared", vec![id(1), id(1)]),
        prompt(3, "Root", vec![id(2), id(2)]),
    ])
    .unwrap();
    let counts = snapshot.occurrence_counts(id(3)).unwrap();
    assert_eq!(count_of(&counts, id(2)), 2);
    assert_eq!(count_of(&counts, id(1)), 4);
}

#[test]
fn rejects_cycles_and_dangling_edges() {
    assert!(matches!(
        CatalogSnapshot::new(vec![prompt(1, "A", vec![id(1)])]),
        Err(DomainError::CycleDetected { .. })
    ));
    assert_eq!(
        CatalogSnapshot::new(vec![prompt(1, "A", vec![id(9)])]).err().unwrap(),
        DomainError::MissingNode(id(9))
    );
}

#[test]
fn deep_graph_algorithms_do_not_recurse() {
    const DEPTH: i64 = 20_000;
    let mut nodes = Vec::with_capacity(DEPTH as usize);
    nodes.push(fragment(DEPTH, &format!("N{DEPTH}"), "x"));
    for value in (1..DEPTH).rev() {
        nodes.push(prompt(value, &format!("N{value}"), vec![id(value + 1)]));
    }
    let snapshot = CatalogSnapshot::new(nodes).unwrap();
    assert_eq!(snapshot.reachable(id(1)).unwrap().len(), DEPTH as usize);
    assert_eq!(count_of(&snapshot.occurrence_counts(id(1)).unwrap(), id(DEPTH)), 1);
    let rendered = snapshot.render_xml_vec(id(1)).unwrap();
    assert!(rendered.ends_with(b"</N1>\n"));
}

#[test]
fn replacement_detects_indirect_cycle_without_mutating() {
    let snapshot = CatalogSnapshot::new(vec![
        fragment(1, "Leaf", ""),
        prompt(2, "Inner", vec![id(1)]),
        prompt(3, "Root", vec![id(2)]),
    ])
    .unwrap();
    assert!(matches!(
        snapshot.validate_replacement(id(2), &[id(3)]),
        Err(DomainError::CycleDetected { .. })
    ));
    assert!(snapshot.validate_replacement(id(3), &[id(1), id(1)]).is_ok());
}

#[test]
fn saturating_occurrences_remain_queryable_after_overflow() {
    let leaf_id = id(66);
    let mut nodes = vec![fragment(66, "N66", "x")];
    for value in (1..66).rev() {
        nodes.push(prompt(value, &format!("N{value}"), vec![id(value + 1), id(value + 1)]));
    }
    let snapshot = CatalogSnapshot::new(nodes).unwrap();
    assert!(matches!(
        snapshot.occurrence_counts(id(1)),
        Err(DomainError::OccurrenceOverflow { .. })
    ));
    assert_eq!(
        count_of(&snapshot.occurrence_counts_saturating(id(1)).unwrap(), leaf_id),
        u64::MAX
    );
}

#[test]
fn duplicate_edges_preserve_multiplicity_for_several_counts() {
    for multiplicity in [1usize, 2, 7, 255] {
        let snapshot = CatalogSnapshot::new(vec![
            fragment(1, "Leaf", "&"),
            prompt(2, "Root", vec![id(1); multiplicity]),
        ])
        .unwrap();
        assert_eq!(
            count_of(&snapshot.occurrence_counts(id(2)).unwrap(), id(1)),
            multiplicity as u64
        );
        let output = snapshot.render_xml_vec(id(2)).unwrap();
        assert_eq!(output.iter().filter(|&&byte| byte == b'\n').count(), 1);
        assert!(output.ends_with(b"</Root>\n"));
    }
}

#[test]
fn lookups_by_id_and_symbol_agree() {
    let snapshot = CatalogSnapshot::new(vec![
        fragment(5, "Zed", "z"),
        fragment(2, "Alpha", "a"),
        prompt(9, "Mid", vec![id(5), id(2)]),
    ])
    .unwrap();
    assert_eq!(snapshot.len(), 3);
    assert!(!snapshot.is_empty());
    let by_symbol = snapshot.get_by_symbol(&Symbol::new("Mid").unwrap()).unwrap();
    assert_eq!(by_symbol.header.id, id(9));
    assert_eq!(snapshot.get(id(2)).unwrap().header.symbol.as_str(), "Alpha");
    assert!(snapshot.get(id(3)).is_none());
    assert!(snapshot.get_by_symbol(&Symbol::new("Nope").unwrap()).is_none());
    let order: Vec<&str> = snapshot.iter_by_symbol().iter().map(|n| n.header.symbol.as_str()).collect();
    assert_eq!(order, vec!["Alpha", "Mid", "Zed"]);
}

#[test]
fn duplicate_ids_symbols_and_kind_mismatch_are_rejected() {
    assert_eq!(
        CatalogSnapshot::new(vec![fragment(1, "A", "a"), fragment(1, "B", "b")]).err().unwrap(),
        DomainError::DuplicateNodeId(id(1))
    );
    assert_eq!(
        CatalogSnapshot::new(vec![fragment(1, "A", "a"), fragment(2, "A", "b")]).err().unwrap(),
        DomainError::DuplicateSymbol("A".to_string())
    );
    let header = NodeHeader {
        id: id(1),
        symbol: Symbol::new("A").unwrap(),
        kind: promptr::domain::NodeKind::Prompt,
        revision: Revision::new(1).unwrap(),
        metadata: Metadata::default(),
        created_at_ms: 0,
        updated_at_ms: 0,
    };
    assert!(matches!(
        Node::from_parts(header, NodeBody::Fragment(XmlText::new("x").unwrap())),
        Err(DomainError::KindMismatch { .. })
    ));
}

#[test]
fn reachability_is_sorted_and_includes_the_root() {
    let snapshot = CatalogSnapshot::new(vec![
        fragment(4, "Leaf", "x"),
        fragment(7, "Other", "y"),
        prompt(2, "Inner", vec![id(4)]),
        prompt(3, "Root", vec![id(2), id(4)]),
    ])
    .unwrap();
    assert_eq!(snapshot.reachable(id(3)).unwrap(), vec![id(2), id(3), id(4)]);
    assert!(snapshot.is_reachable(id(3), id(4)).unwrap());
    assert!(!snapshot.is_reachable(id(3), id(7)).unwrap());
    assert_eq!(snapshot.reachable(id(8)).unwrap_err(), DomainError::MissingNode(id(8)));
    assert!(snapshot.validate_replacement(id(2), &[id(7)]).is_ok());
    assert_eq!(
        snapshot.validate_replacement(id(2), &[id(99)]).err().unwrap(),
        DomainError::MissingNode(id(99))
    );
}

#[test]
fn fragment_render_is_escaped_text_with_newline() {
    let snapshot = CatalogSnapshot::new(vec![fragment(1, "T", "a<b")]).unwrap();
    assert_eq!(snapshot.render_xml_vec(id(1)).unwrap(), b"<T>a&lt;b</T>\n");
    let counts = snapshot.occurrence_counts(id(1)).unwrap();
    assert_eq!(counts, vec![(id(1), 1)]);
}

use transcript::chunk::Chunk;

fn leaf(text: &str) -> Chunk {
    Chunk::String(text.to_string())
}

fn group(children: Vec<Chunk>) -> Chunk {
    Chunk::Chunks(children)
}

fn leaf_texts(chunk: &Chunk, out: &mut Vec<String>) {
    match chunk {
        Chunk::String(s) => out.push(s.clone()),
        Chunk::Chunks(v) => {
            for c in v {
                leaf_texts(c, out);
            }
        }
    }
}

fn sample_tree() -> Chunk {
    group(vec![
        group(vec![leaf("  Plan ")]),
        group(vec![leaf(" a"), group(vec![group(vec![leaf("b ")])]), leaf("   ")]),
        group(vec![]),
        leaf("c"),
    ])
}

#[test]
fn constructors_build_the_variants() {
    assert_eq!(Chunk::leaf("x".to_string()), Chunk::String("x".to_string()));
    assert_eq!(
        Chunk::group(vec![leaf("a"), group(vec![])]),
        Chunk::Chunks(vec![Chunk::String("a".to_string()), Chunk::Chunks(vec![])])
    );
}

#[test]
fn accessors_tell_leaf_from_group() {
    let l = leaf("text");
    let g = group(vec![leaf("x"), leaf("y")]);
    assert_eq!(l.get_string(), Some("text"));
    assert!(l.get_contained().is_none());
    assert!(!l.is_chunks());
    assert_eq!(g.get_string(), None);
    assert_eq!(g.get_contained().map(|s| s.len()), Some(2));
    assert!(g.is_chunks());
}

#[test]
fn simplify_trims_a_leaf() {
    assert_eq!(leaf("  SFU \t\n").simplify(), leaf("SFU"));
    assert_eq!(leaf("\u{2003}a b\u{a0}").simplify(), leaf("a b"));
}

#[test]
fn simplify_keeps_an_empty_leaf() {
    assert_eq!(leaf("   ").simplify(), leaf(""));
    assert_eq!(
        group(vec![leaf(" "), leaf("x")]).simplify(),
        group(vec![leaf(""), leaf("x")])
    );
}

#[test]
fn simplify_collapses_singleton_groups() {
    assert_eq!(group(vec![leaf(" x ")]).simplify(), leaf("x"));
    assert_eq!(group(vec![group(vec![group(vec![leaf("x")])])]).simplify(), leaf("x"));
    assert_eq!(
        group(vec![group(vec![leaf("a"), leaf("b")])]).simplify(),
        group(vec![leaf("a"), leaf("b")])
    );
}

#[test]
fn simplify_keeps_empty_and_wider_groups() {
    assert_eq!(group(vec![]).simplify(), group(vec![]));
    assert_eq!(group(vec![group(vec![])]).simplify(), group(vec![]));
    assert_eq!(
        sample_tree().simplify(),
        group(vec![
            leaf("Plan"),
            group(vec![leaf("a"), leaf("b"), leaf("")]),
            group(vec![]),
            leaf("c"),
        ])
    );
}

#[test]
fn simplify_is_idempotent() {
    let once = sample_tree().simplify();
    let twice = sample_tree().simplify().simplify();
    assert_eq!(once, twice);
}

#[test]
fn simplify_preserves_leaf_order() {
    let mut before = Vec::new();
    leaf_texts(&sample_tree(), &mut before);
    let mut after = Vec::new();
    leaf_texts(&sample_tree().simplify(), &mut after);
    let trimmed: Vec<String> = before.iter().map(|s| s.trim().to_string()).collect();
    assert_eq!(after, trimmed);
    assert_eq!(after, vec!["Plan", "a", "b", "", "c"]);
}

#[test]
fn clone_copies_the_tree() {
    let tree = sample_tree();
    let copy = tree.clone();
    assert_eq!(copy, sample_tree());
    assert_eq!(tree, copy);
    assert_eq!(leaf("x").clone(), leaf("x"));
    assert_eq!(group(vec![]).clone(), group(vec![]));
}

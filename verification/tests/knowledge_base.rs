use expert_system::{snapshot, Fact, Gender, KnowledgeBase};

fn kb_person(name: &str, gender: Gender) -> Fact {
    Fact::Person { name: name.to_string(), gender }
}

fn kb_parent(parent: &str, child: &str) -> Fact {
    Fact::Parent { parent: parent.to_string(), child: child.to_string() }
}

#[test]
fn new_knowledge_base_is_empty() {
    let kb = KnowledgeBase::new();
    assert_eq!(kb.len(), 0);
    assert!(snapshot(&kb).is_empty());
    assert!(!kb.has_person("lars", Gender::Male));
}

#[test]
fn default_knowledge_base_is_empty() {
    let kb = KnowledgeBase::default();
    assert_eq!(kb.len(), 0);
    assert!(kb.facts().is_empty());
}

#[test]
fn add_fact_twice_returns_true_then_false() {
    let mut kb = KnowledgeBase::new();
    assert!(kb.add_fact(kb_person("lars", Gender::Male)));
    assert_eq!(kb.len(), 1);
    assert!(!kb.add_fact(kb_person("lars", Gender::Male)));
    assert_eq!(kb.len(), 1);
}

#[test]
fn add_fact_grows_by_one_for_each_new_fact() {
    let mut kb = KnowledgeBase::new();
    assert!(kb.add_fact(kb_person("lars", Gender::Male)));
    assert!(kb.add_fact(kb_parent("ellis", "lars")));
    assert!(kb.add_fact(kb_parent("lars", "ellis")));
    assert_eq!(kb.len(), 3);
    assert!(!kb.add_fact(kb_parent("ellis", "lars")));
    assert_eq!(kb.len(), 3);
}

#[test]
fn facts_with_same_names_and_other_tag_are_different() {
    let mut kb = KnowledgeBase::new();
    assert!(kb.add_fact(Fact::Father { father: "a".to_string(), child: "b".to_string() }));
    assert!(kb.add_fact(Fact::Mother { mother: "a".to_string(), child: "b".to_string() }));
    assert!(kb.add_fact(Fact::Parent { parent: "a".to_string(), child: "b".to_string() }));
    assert!(kb.add_fact(Fact::Sibling { a: "a".to_string(), b: "b".to_string() }));
    assert!(kb.add_fact(Fact::Cousin { a: "a".to_string(), b: "b".to_string() }));
    assert!(kb.add_fact(Fact::Uncle { uncle: "a".to_string(), nibling: "b".to_string() }));
    assert!(kb.add_fact(Fact::Nibling { nibling: "a".to_string(), relative: "b".to_string() }));
    assert!(kb.add_fact(Fact::Grandson {
        grandson: "a".to_string(),
        grandparent: "b".to_string()
    }));
    assert_eq!(kb.len(), 8);
}

#[test]
fn contains_tells_held_facts_from_others() {
    let mut kb = KnowledgeBase::new();
    kb.add_fact(kb_parent("ellis", "lars"));
    assert!(kb.contains(&kb_parent("ellis", "lars")));
    assert!(!kb.contains(&kb_parent("lars", "ellis")));
    assert!(!kb.contains(&kb_person("ellis", Gender::Female)));
}

#[test]
fn has_person_needs_name_and_gender() {
    let mut kb = KnowledgeBase::new();
    kb.add_fact(kb_person("lotte", Gender::Female));
    assert!(kb.has_person("lotte", Gender::Female));
    assert!(!kb.has_person("lotte", Gender::Male));
    assert!(!kb.has_person("lotte", Gender::X));
    assert!(!kb.has_person("lott", Gender::Female));
    assert!(!kb.has_person("", Gender::Female));
}

#[test]
fn has_person_is_false_for_unknown_name() {
    let mut kb = KnowledgeBase::new();
    kb.add_fact(kb_parent("ellis", "lars"));
    assert!(!kb.has_person("ellis", Gender::Female));
    assert!(!kb.has_person("nobody", Gender::Male));
}

#[test]
fn has_person_ignores_other_kinds_of_fact() {
    let mut kb = KnowledgeBase::new();
    kb.add_fact(Fact::Father { father: "erik".to_string(), child: "lars".to_string() });
    assert!(!kb.has_person("erik", Gender::Male));
}

#[test]
fn contradictory_genders_are_both_kept() {
    let mut kb = KnowledgeBase::new();
    assert!(kb.add_fact(kb_person("sam", Gender::Male)));
    assert!(kb.add_fact(kb_person("sam", Gender::Female)));
    assert_eq!(kb.len(), 2);
    assert!(kb.has_person("sam", Gender::Male));
    assert!(kb.has_person("sam", Gender::Female));
    assert!(!kb.has_person("sam", Gender::X));
}

#[test]
fn snapshot_holds_every_fact_once() {
    let mut kb = KnowledgeBase::new();
    kb.add_fact(kb_person("lars", Gender::Male));
    kb.add_fact(kb_parent("ellis", "lars"));
    kb.add_fact(kb_person("lars", Gender::Male));
    let facts = snapshot(&kb);
    assert_eq!(facts.len(), 2);
    assert!(facts.contains(&kb_person("lars", Gender::Male)));
    assert!(facts.contains(&kb_parent("ellis", "lars")));
}

#[test]
fn snapshot_does_not_show_later_facts() {
    let mut kb = KnowledgeBase::new();
    kb.add_fact(kb_person("lars", Gender::Male));
    let facts = snapshot(&kb);
    kb.add_fact(kb_parent("ellis", "lars"));
    assert_eq!(facts.len(), 1);
    assert_eq!(facts[0], kb_person("lars", Gender::Male));
    assert_eq!(kb.len(), 2);
}

#[test]
fn fact_equality_is_structural() {
    assert_eq!(kb_parent("a", "b"), kb_parent("a", "b"));
    assert_ne!(kb_parent("a", "b"), kb_parent("b", "a"));
    assert_ne!(kb_parent("a", "b"), kb_parent("a", "c"));
    assert_ne!(kb_person("a", Gender::Male), kb_person("a", Gender::Female));
    assert_ne!(
        Fact::Sibling { a: "a".to_string(), b: "b".to_string() },
        Fact::Cousin { a: "a".to_string(), b: "b".to_string() }
    );
    assert_eq!(
        Fact::Nibling { nibling: "a".to_string(), relative: "b".to_string() },
        Fact::Nibling { nibling: "a".to_string(), relative: "b".to_string() }
    );
}

#[test]
fn fact_clone_equals_its_source() {
    let facts = vec![
        kb_person("a", Gender::X),
        kb_parent("a", "b"),
        Fact::Father { father: "a".to_string(), child: "b".to_string() },
        Fact::Mother { mother: "a".to_string(), child: "b".to_string() },
        Fact::Sibling { a: "a".to_string(), b: "b".to_string() },
        Fact::Uncle { uncle: "a".to_string(), nibling: "b".to_string() },
        Fact::Cousin { a: "a".to_string(), b: "b".to_string() },
        Fact::Nibling { nibling: "a".to_string(), relative: "b".to_string() },
        Fact::Grandson { grandson: "a".to_string(), grandparent: "b".to_string() },
    ];
    for (i, f) in facts.iter().enumerate() {
        assert_eq!(f.clone(), *f);
        for (j, g) in facts.iter().enumerate() {
            assert_eq!(f == g, i == j);
        }
    }
}

#[test]
fn many_facts_are_all_found_again() {
    let mut kb = KnowledgeBase::new();
    for i in 0..300 {
        let name = format!("n{}", i);
        assert!(kb.add_fact(kb_person(&name, Gender::X)));
        assert!(kb.add_fact(kb_parent(&name, "root")));
        assert!(kb.add_fact(kb_parent("root", &name)));
    }
    assert_eq!(kb.len(), 900);
    for i in 0..300 {
        let name = format!("n{}", i);
        assert!(kb.has_person(&name, Gender::X));
        assert!(!kb.has_person(&name, Gender::Male));
        assert!(kb.contains(&kb_parent(&name, "root")));
        assert!(kb.contains(&kb_parent("root", &name)));
        assert!(!kb.contains(&kb_parent(&name, &name)));
        assert!(!kb.add_fact(kb_parent(&name, "root")));
    }
    assert_eq!(kb.len(), 900);
    assert_eq!(snapshot(&kb).len(), 900);
}

#[test]
fn names_that_share_their_letters_are_kept_apart() {
    let mut kb = KnowledgeBase::new();
    assert!(kb.add_fact(kb_parent("ab", "c")));
    assert!(kb.add_fact(kb_parent("a", "bc")));
    assert!(kb.add_fact(kb_parent("", "abc")));
    assert!(kb.add_fact(kb_parent("abc", "")));
    assert!(!kb.add_fact(kb_parent("a", "bc")));
    assert_eq!(kb.len(), 4);
    assert!(kb.contains(&kb_parent("ab", "c")));
    assert!(!kb.contains(&kb_parent("abc", "c")));
}

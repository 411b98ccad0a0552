use expert_system::rules::{
    infer_cousin, infer_father_mother, infer_grandson, infer_nibling, infer_sibling, infer_uncle,
    iter_parents, iter_siblings, rule_set,
};
use expert_system::{Fact, Gender, KnowledgeBase, Rule};

fn person(name: &str, gender: Gender) -> Fact {
    Fact::Person { name: name.to_string(), gender }
}

fn parent(parent: &str, child: &str) -> Fact {
    Fact::Parent { parent: parent.to_string(), child: child.to_string() }
}

fn sibling(a: &str, b: &str) -> Fact {
    Fact::Sibling { a: a.to_string(), b: b.to_string() }
}

fn pair(a: &str, b: &str) -> (String, String) {
    (a.to_string(), b.to_string())
}

fn held(kb: &KnowledgeBase) -> Vec<Fact> {
    kb.facts().clone()
}

fn same_set(found: &[Fact], expected: &[Fact]) -> bool {
    found.len() == expected.len() && expected.iter().all(|f| found.contains(f))
}

#[test]
fn iter_parents_keeps_parent_facts_in_order() {
    let facts = vec![
        person("a", Gender::Male),
        parent("a", "b"),
        sibling("b", "c"),
        parent("a", "c"),
        parent("a", "b"),
    ];
    assert_eq!(iter_parents(&facts), vec![pair("a", "b"), pair("a", "c"), pair("a", "b")]);
}

#[test]
fn iter_siblings_keeps_sibling_facts_in_order() {
    let facts = vec![
        sibling("c", "b"),
        person("a", Gender::Male),
        parent("a", "b"),
        sibling("b", "c"),
        Fact::Cousin { a: "x".to_string(), b: "y".to_string() },
    ];
    assert_eq!(iter_siblings(&facts), vec![pair("c", "b"), pair("b", "c")]);
}

#[test]
fn iter_parents_and_siblings_of_nothing_are_empty() {
    let facts: Vec<Fact> = Vec::new();
    assert!(iter_parents(&facts).is_empty());
    assert!(iter_siblings(&facts).is_empty());
    let only_people = vec![person("a", Gender::X)];
    assert!(iter_parents(&only_people).is_empty());
    assert!(iter_siblings(&only_people).is_empty());
}

#[test]
fn father_mother_follow_the_parent_gender() {
    let facts = vec![
        person("erik", Gender::Male),
        person("ellis", Gender::Female),
        person("kim", Gender::X),
        parent("erik", "lars"),
        parent("ellis", "lars"),
        parent("kim", "lars"),
        parent("ghost", "lars"),
    ];
    let mut kb = KnowledgeBase::new();
    assert!(infer_father_mother(&facts, &mut kb));
    let expected = vec![
        Fact::Father { father: "erik".to_string(), child: "lars".to_string() },
        Fact::Mother { mother: "ellis".to_string(), child: "lars".to_string() },
    ];
    assert!(same_set(&held(&kb), &expected));
    assert!(!infer_father_mother(&facts, &mut kb));
    assert_eq!(kb.len(), 2);
}

#[test]
fn person_of_both_genders_is_father_and_mother() {
    let facts =
        vec![person("sam", Gender::Male), person("sam", Gender::Female), parent("sam", "c")];
    let mut kb = KnowledgeBase::new();
    assert!(infer_father_mother(&facts, &mut kb));
    let expected = vec![
        Fact::Father { father: "sam".to_string(), child: "c".to_string() },
        Fact::Mother { mother: "sam".to_string(), child: "c".to_string() },
    ];
    assert!(same_set(&held(&kb), &expected));
}

#[test]
fn rules_read_the_snapshot_not_the_knowledge_base() {
    let mut kb = KnowledgeBase::new();
    kb.add_fact(person("erik", Gender::Male));
    kb.add_fact(parent("erik", "lars"));
    kb.add_fact(parent("erik", "lotte"));
    kb.add_fact(parent("lars", "tim"));
    kb.add_fact(person("tim", Gender::Male));
    let nothing: Vec<Fact> = Vec::new();
    assert!(!infer_father_mother(&nothing, &mut kb));
    assert!(!infer_sibling(&nothing, &mut kb));
    assert!(!infer_uncle(&nothing, &mut kb));
    assert!(!infer_cousin(&nothing, &mut kb));
    assert!(!infer_nibling(&nothing, &mut kb));
    assert!(!infer_grandson(&nothing, &mut kb));
    assert_eq!(kb.len(), 5);
}

#[test]
fn sibling_rule_adds_both_orders() {
    let facts = vec![parent("p", "a"), parent("p", "b"), parent("q", "c")];
    let mut kb = KnowledgeBase::new();
    assert!(infer_sibling(&facts, &mut kb));
    assert!(same_set(&held(&kb), &[sibling("a", "b"), sibling("b", "a")]));
    assert!(!infer_sibling(&facts, &mut kb));
}

#[test]
fn sibling_rule_needs_two_different_children() {
    let facts = vec![parent("p", "a"), parent("q", "b"), parent("p", "a")];
    let mut kb = KnowledgeBase::new();
    assert!(!infer_sibling(&facts, &mut kb));
    assert_eq!(kb.len(), 0);
}

#[test]
fn sibling_rule_reports_no_change_when_all_is_held() {
    let facts = vec![parent("p", "a"), parent("p", "b")];
    let mut kb = KnowledgeBase::new();
    kb.add_fact(sibling("a", "b"));
    assert!(infer_sibling(&facts, &mut kb));
    assert_eq!(kb.len(), 2);
    let mut full = KnowledgeBase::new();
    full.add_fact(sibling("a", "b"));
    full.add_fact(sibling("b", "a"));
    assert!(!infer_sibling(&facts, &mut full));
    assert_eq!(full.len(), 2);
}

#[test]
fn uncle_rule_needs_a_male_sibling_of_the_parent() {
    let facts = vec![
        person("bob", Gender::Male),
        person("eve", Gender::Female),
        sibling("bob", "eve"),
        sibling("eve", "bob"),
        parent("eve", "kid"),
        parent("bob", "child"),
    ];
    let mut kb = KnowledgeBase::new();
    assert!(infer_uncle(&facts, &mut kb));
    let expected = vec![Fact::Uncle { uncle: "bob".to_string(), nibling: "kid".to_string() }];
    assert!(same_set(&held(&kb), &expected));
}

#[test]
fn uncle_rule_skips_undeclared_gender() {
    let facts = vec![sibling("bob", "eve"), parent("eve", "kid"), person("bob", Gender::X)];
    let mut kb = KnowledgeBase::new();
    assert!(!infer_uncle(&facts, &mut kb));
    assert_eq!(kb.len(), 0);
}

#[test]
fn cousin_rule_adds_both_orders() {
    let facts = vec![sibling("p", "q"), parent("p", "a"), parent("q", "b")];
    let mut kb = KnowledgeBase::new();
    assert!(infer_cousin(&facts, &mut kb));
    let expected = vec![
        Fact::Cousin { a: "a".to_string(), b: "b".to_string() },
        Fact::Cousin { a: "b".to_string(), b: "a".to_string() },
    ];
    assert!(same_set(&held(&kb), &expected));
}

#[test]
fn cousin_rule_pairs_every_child_of_one_with_every_child_of_the_other() {
    let facts = vec![
        sibling("p", "q"),
        parent("p", "a1"),
        parent("p", "a2"),
        parent("q", "b1"),
        parent("r", "c1"),
    ];
    let mut kb = KnowledgeBase::new();
    assert!(infer_cousin(&facts, &mut kb));
    let expected = vec![
        Fact::Cousin { a: "a1".to_string(), b: "b1".to_string() },
        Fact::Cousin { a: "b1".to_string(), b: "a1".to_string() },
        Fact::Cousin { a: "a2".to_string(), b: "b1".to_string() },
        Fact::Cousin { a: "b1".to_string(), b: "a2".to_string() },
    ];
    assert!(same_set(&held(&kb), &expected));
}

#[test]
fn cousin_rule_never_makes_someone_their_own_cousin() {
    let facts = vec![sibling("p", "q"), parent("p", "x"), parent("q", "x")];
    let mut kb = KnowledgeBase::new();
    assert!(!infer_cousin(&facts, &mut kb));
    assert_eq!(kb.len(), 0);
}

#[test]
fn nibling_rule_names_the_child_first() {
    let facts = vec![sibling("p", "s"), parent("s", "c"), parent("p", "d")];
    let mut kb = KnowledgeBase::new();
    assert!(infer_nibling(&facts, &mut kb));
    let expected = vec![Fact::Nibling { nibling: "c".to_string(), relative: "p".to_string() }];
    assert!(same_set(&held(&kb), &expected));
}

#[test]
fn grandson_rule_needs_a_male_grandchild() {
    let facts = vec![
        parent("a", "b"),
        parent("b", "c"),
        parent("b", "d"),
        parent("b", "e"),
        person("c", Gender::Male),
        person("d", Gender::Female),
    ];
    let mut kb = KnowledgeBase::new();
    assert!(infer_grandson(&facts, &mut kb));
    let expected = vec![Fact::Grandson { grandson: "c".to_string(), grandparent: "a".to_string() }];
    assert!(same_set(&held(&kb), &expected));
}

#[test]
fn rules_keep_what_the_knowledge_base_held() {
    let facts = vec![parent("a", "b"), parent("b", "c"), person("c", Gender::Male)];
    let mut kb = KnowledgeBase::new();
    kb.add_fact(person("zed", Gender::X));
    assert!(infer_grandson(&facts, &mut kb));
    let expected = vec![
        person("zed", Gender::X),
        Fact::Grandson { grandson: "c".to_string(), grandparent: "a".to_string() },
    ];
    assert!(same_set(&held(&kb), &expected));
}

#[test]
fn rule_set_lists_the_six_rules_in_order() {
    assert_eq!(
        rule_set(),
        [
            Rule::FatherMother,
            Rule::Sibling,
            Rule::Uncle,
            Rule::Cousin,
            Rule::Nibling,
            Rule::Grandson,
        ]
    );
}

#[test]
fn apply_runs_the_rule_it_names() {
    let facts = vec![
        person("a", Gender::Male),
        person("b", Gender::Male),
        person("c", Gender::Female),
        person("d", Gender::Male),
        parent("a", "b"),
        parent("a", "c"),
        parent("b", "d"),
        parent("c", "e"),
        sibling("b", "c"),
        sibling("c", "b"),
    ];
    let direct: [fn(&Vec<Fact>, &mut KnowledgeBase) -> bool; 6] = [
        infer_father_mother,
        infer_sibling,
        infer_uncle,
        infer_cousin,
        infer_nibling,
        infer_grandson,
    ];
    let sizes = [4, 2, 1, 2, 2, 1];
    for (i, rule) in rule_set().iter().enumerate() {
        let mut by_rule = KnowledgeBase::new();
        let mut by_function = KnowledgeBase::new();
        assert!(rule.apply(&facts, &mut by_rule));
        assert!(direct[i](&facts, &mut by_function));
        assert_eq!(by_rule.len(), sizes[i]);
        assert!(same_set(&held(&by_rule), &held(&by_function)));
        assert!(!rule.apply(&facts, &mut by_rule));
    }
}

use expert_system::{
    grandsons_of, infer_all, infer_pass, snapshot, sons_of, Fact, Gender, KnowledgeBase,
};

fn p(name: &str, gender: Gender) -> Fact {
    Fact::Person { name: name.to_string(), gender }
}

fn par(parent: &str, child: &str) -> Fact {
    Fact::Parent { parent: parent.to_string(), child: child.to_string() }
}

fn father(father: &str, child: &str) -> Fact {
    Fact::Father { father: father.to_string(), child: child.to_string() }
}

fn mother(mother: &str, child: &str) -> Fact {
    Fact::Mother { mother: mother.to_string(), child: child.to_string() }
}

fn sib(a: &str, b: &str) -> Fact {
    Fact::Sibling { a: a.to_string(), b: b.to_string() }
}

fn uncle(uncle: &str, nibling: &str) -> Fact {
    Fact::Uncle { uncle: uncle.to_string(), nibling: nibling.to_string() }
}

fn cousin(a: &str, b: &str) -> Fact {
    Fact::Cousin { a: a.to_string(), b: b.to_string() }
}

fn nibling(nibling: &str, relative: &str) -> Fact {
    Fact::Nibling { nibling: nibling.to_string(), relative: relative.to_string() }
}

fn grandson(grandson: &str, grandparent: &str) -> Fact {
    Fact::Grandson { grandson: grandson.to_string(), grandparent: grandparent.to_string() }
}

fn seed_family() -> KnowledgeBase {
    let mut kb = KnowledgeBase::new();
    kb.add_fact(p("lars", Gender::Male));
    kb.add_fact(p("lotte", Gender::Female));
    kb.add_fact(p("ellis", Gender::Female));
    kb.add_fact(p("erik", Gender::Male));
    kb.add_fact(p("arie", Gender::Male));
    kb.add_fact(p("ariejan", Gender::Male));
    kb.add_fact(par("arie", "ellis"));
    kb.add_fact(par("arie", "ariejan"));
    kb.add_fact(par("ellis", "lars"));
    kb.add_fact(par("ellis", "lotte"));
    kb.add_fact(par("erik", "lars"));
    kb.add_fact(par("erik", "lotte"));
    kb
}

fn names(found: Vec<String>) -> Vec<String> {
    let mut sorted = found;
    sorted.sort();
    sorted
}

fn is_subset(small: &[Fact], large: &[Fact]) -> bool {
    small.iter().all(|f| large.contains(f))
}

#[test]
fn seed_family_saturates_as_expected() {
    let mut kb = seed_family();
    infer_all(&mut kb);
    assert!(kb.contains(&father("erik", "lars")));
    assert!(kb.contains(&father("erik", "lotte")));
    assert!(kb.contains(&mother("ellis", "lars")));
    assert!(kb.contains(&mother("ellis", "lotte")));
    assert!(kb.contains(&sib("lars", "lotte")));
    assert!(kb.contains(&sib("lotte", "lars")));
    assert!(kb.contains(&father("arie", "ariejan")));
    assert_eq!(names(sons_of(&kb, "erik")), vec!["lars".to_string()]);
    assert_eq!(names(sons_of(&kb, "arie")), vec!["ariejan".to_string()]);
    assert_eq!(names(grandsons_of(&kb, "arie")), vec!["lars".to_string()]);
}

#[test]
fn seed_family_saturation_is_exact() {
    let mut kb = seed_family();
    infer_all(&mut kb);
    let expected = vec![
        father("arie", "ellis"),
        father("arie", "ariejan"),
        father("erik", "lars"),
        father("erik", "lotte"),
        mother("ellis", "lars"),
        mother("ellis", "lotte"),
        sib("ellis", "ariejan"),
        sib("ariejan", "ellis"),
        sib("lars", "lotte"),
        sib("lotte", "lars"),
        grandson("lars", "arie"),
        uncle("ariejan", "lars"),
        uncle("ariejan", "lotte"),
        nibling("lars", "ariejan"),
        nibling("lotte", "ariejan"),
    ];
    assert_eq!(kb.len(), 12 + expected.len());
    for f in &expected {
        assert!(kb.contains(f), "missing {:?}", f);
    }
    assert!(is_subset(&snapshot(&seed_family()), &snapshot(&kb)));
}

#[test]
fn seed_family_needs_two_passes_that_add_and_one_that_confirms() {
    let mut kb = seed_family();
    assert!(infer_pass(&mut kb));
    assert_eq!(kb.len(), 12 + 11);
    assert!(kb.contains(&sib("ellis", "ariejan")));
    assert!(kb.contains(&grandson("lars", "arie")));
    assert!(!kb.contains(&uncle("ariejan", "lars")));
    assert!(!kb.contains(&nibling("lars", "ariejan")));
    assert!(infer_pass(&mut kb));
    assert_eq!(kb.len(), 12 + 15);
    assert!(kb.contains(&uncle("ariejan", "lars")));
    assert!(kb.contains(&nibling("lotte", "ariejan")));
    assert!(!infer_pass(&mut kb));
    assert_eq!(kb.len(), 12 + 15);
}

#[test]
fn every_pass_keeps_the_facts_of_the_pass_before() {
    let mut kb = seed_family();
    let mut before = snapshot(&kb);
    loop {
        let changed = infer_pass(&mut kb);
        let after = snapshot(&kb);
        assert!(is_subset(&before, &after));
        assert_eq!(changed, after.len() > before.len());
        before = after;
        if !changed {
            break;
        }
    }
}

#[test]
fn infer_all_equals_passes_until_no_change() {
    let mut by_passes = seed_family();
    while infer_pass(&mut by_passes) {}
    let mut at_once = seed_family();
    infer_all(&mut at_once);
    assert_eq!(at_once.len(), by_passes.len());
    assert!(is_subset(&snapshot(&by_passes), &snapshot(&at_once)));
}

#[test]
fn saturating_again_changes_nothing() {
    let mut kb = seed_family();
    infer_all(&mut kb);
    let first = snapshot(&kb);
    infer_all(&mut kb);
    let second = snapshot(&kb);
    assert_eq!(first, second);
    assert!(!infer_pass(&mut kb));
    assert_eq!(snapshot(&kb), first);
}

#[test]
fn empty_knowledge_base_stays_empty() {
    let mut kb = KnowledgeBase::new();
    assert!(!infer_pass(&mut kb));
    assert_eq!(kb.len(), 0);
    infer_all(&mut kb);
    assert_eq!(kb.len(), 0);
    assert!(snapshot(&kb).is_empty());
    assert!(sons_of(&kb, "erik").is_empty());
    assert!(grandsons_of(&kb, "arie").is_empty());
}

#[test]
fn people_without_parents_derive_nothing() {
    let mut kb = KnowledgeBase::new();
    kb.add_fact(p("a", Gender::Male));
    kb.add_fact(p("b", Gender::Female));
    infer_all(&mut kb);
    assert_eq!(kb.len(), 2);
}

#[test]
fn derived_siblings_and_cousins_come_in_both_orders() {
    let mut kb = KnowledgeBase::new();
    for f in [
        par("g", "p"),
        par("g", "q"),
        par("g", "r"),
        par("p", "a"),
        par("q", "b"),
        par("q", "c"),
        par("r", "d"),
    ] {
        kb.add_fact(f);
    }
    infer_all(&mut kb);
    let facts = snapshot(&kb);
    let mut siblings = 0;
    let mut cousins = 0;
    for f in &facts {
        if let Fact::Sibling { a, b } = f {
            siblings += 1;
            assert_ne!(a, b);
            assert!(kb.contains(&sib(b, a)));
        }
        if let Fact::Cousin { a, b } = f {
            cousins += 1;
            assert_ne!(a, b);
            assert!(kb.contains(&cousin(b, a)));
        }
    }
    assert_eq!(siblings, 6 + 2);
    assert_eq!(cousins, 2 * (2 + 1 + 2));
    assert!(kb.contains(&cousin("a", "b")));
    assert!(kb.contains(&cousin("d", "c")));
    assert!(!kb.contains(&cousin("b", "c")));
    assert!(kb.contains(&nibling("a", "q")));
    assert!(kb.contains(&nibling("b", "p")));
}

#[test]
fn female_parent_is_never_a_father() {
    let mut kb = KnowledgeBase::new();
    kb.add_fact(p("ellis", Gender::Female));
    kb.add_fact(p("lars", Gender::Male));
    kb.add_fact(par("ellis", "lars"));
    kb.add_fact(par("ellis", "lotte"));
    infer_all(&mut kb);
    for f in snapshot(&kb) {
        if let Fact::Father { father, .. } = f {
            assert_ne!(father, "ellis");
        }
    }
    assert!(kb.contains(&mother("ellis", "lars")));
    assert!(kb.contains(&mother("ellis", "lotte")));
    assert!(sons_of(&kb, "ellis").is_empty());
}

#[test]
fn other_gender_opens_no_gated_rule() {
    let mut kb = KnowledgeBase::new();
    kb.add_fact(p("kim", Gender::X));
    kb.add_fact(p("alex", Gender::X));
    kb.add_fact(par("root", "kim"));
    kb.add_fact(par("root", "mid"));
    kb.add_fact(par("mid", "alex"));
    infer_all(&mut kb);
    for f in snapshot(&kb) {
        assert!(!matches!(
            f,
            Fact::Father { .. } | Fact::Mother { .. } | Fact::Uncle { .. } | Fact::Grandson { .. }
        ));
    }
    assert!(kb.contains(&sib("kim", "mid")));
    assert!(kb.contains(&nibling("alex", "kim")));
}

#[test]
fn sons_need_a_father_fact_and_a_male_person() {
    let mut kb = KnowledgeBase::new();
    kb.add_fact(father("erik", "lars"));
    kb.add_fact(father("erik", "lotte"));
    kb.add_fact(father("erik", "tim"));
    kb.add_fact(father("arie", "jan"));
    kb.add_fact(mother("erik", "bo"));
    kb.add_fact(p("lars", Gender::Male));
    kb.add_fact(p("lotte", Gender::Female));
    kb.add_fact(p("jan", Gender::Male));
    kb.add_fact(p("bo", Gender::Male));
    assert_eq!(names(sons_of(&kb, "erik")), vec!["lars".to_string()]);
    assert_eq!(names(sons_of(&kb, "arie")), vec!["jan".to_string()]);
    assert!(sons_of(&kb, "lars").is_empty());
}

#[test]
fn grandsons_need_only_the_grandson_fact() {
    let mut kb = KnowledgeBase::new();
    kb.add_fact(grandson("lars", "arie"));
    kb.add_fact(grandson("tim", "arie"));
    kb.add_fact(grandson("bo", "erik"));
    kb.add_fact(grandson("arie", "lars"));
    assert_eq!(names(grandsons_of(&kb, "arie")), vec!["lars".to_string(), "tim".to_string()]);
    assert_eq!(names(grandsons_of(&kb, "erik")), vec!["bo".to_string()]);
    assert!(grandsons_of(&kb, "tim").is_empty());
}

#[test]
fn queries_before_saturation_are_incomplete_not_wrong() {
    let kb = seed_family();
    assert!(sons_of(&kb, "erik").is_empty());
    assert!(grandsons_of(&kb, "arie").is_empty());
}

#[test]
fn several_sons_are_each_listed_once() {
    let mut kb = KnowledgeBase::new();
    kb.add_fact(p("dad", Gender::Male));
    kb.add_fact(p("s1", Gender::Male));
    kb.add_fact(p("s2", Gender::Male));
    kb.add_fact(p("d1", Gender::Female));
    kb.add_fact(par("dad", "s1"));
    kb.add_fact(par("dad", "s2"));
    kb.add_fact(par("dad", "d1"));
    kb.add_fact(par("s1", "g1"));
    kb.add_fact(par("d1", "g2"));
    kb.add_fact(p("g1", Gender::Male));
    kb.add_fact(p("g2", Gender::Male));
    infer_all(&mut kb);
    assert_eq!(names(sons_of(&kb, "dad")), vec!["s1".to_string(), "s2".to_string()]);
    assert_eq!(names(grandsons_of(&kb, "dad")), vec!["g1".to_string(), "g2".to_string()]);
    assert!(kb.contains(&uncle("s2", "g1")));
    assert!(kb.contains(&uncle("s1", "g2")));
    assert!(kb.contains(&uncle("s2", "g2")));
    assert!(!kb.contains(&uncle("d1", "g1")));
    assert!(kb.contains(&cousin("g1", "g2")));
    assert!(kb.contains(&cousin("g2", "g1")));
}

#[test]
fn loop_in_parentage_still_terminates() {
    let mut kb = KnowledgeBase::new();
    kb.add_fact(p("a", Gender::Male));
    kb.add_fact(p("b", Gender::Male));
    kb.add_fact(par("a", "b"));
    kb.add_fact(par("b", "a"));
    kb.add_fact(par("a", "a"));
    infer_all(&mut kb);
    assert!(kb.contains(&grandson("a", "a")));
    assert!(kb.contains(&grandson("b", "b")));
    assert!(kb.contains(&sib("a", "b")));
    assert!(kb.contains(&sib("b", "a")));
    assert!(!infer_pass(&mut kb));
}

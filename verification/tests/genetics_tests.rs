use rand::rngs::StdRng;
use rand::{Rng, SeedableRng};
use raise::genetics::{
    single_point_crossover, single_point_crossover_at, uniform_crossover, uniform_crossover_with,
    SystemAllocationGenome,
};

fn mock_context() -> (Vec<String>, Vec<String>) {
    (vec!["F1".into(), "F2".into(), "F3".into()], vec!["C1".into(), "C2".into()])
}

#[test]
fn test_initialization_and_mapping() {
    let (f_ids, c_ids) = mock_context();
    let genome = SystemAllocationGenome { genes: vec![0, 1, 0], function_ids: f_ids, available_component_ids: c_ids };
    let mapping = genome.get_allocations();
    assert_eq!(mapping[0], ("F1".to_string(), "C1".to_string()));
    assert_eq!(mapping[1], ("F2".to_string(), "C2".to_string()));
    assert_eq!(mapping[2], ("F3".to_string(), "C1".to_string()));
}

#[test]
fn test_crossover_mixes_parents() {
    let (f_ids, c_ids) = mock_context();
    let parent1 = SystemAllocationGenome {
        genes: vec![0, 0, 0],
        function_ids: f_ids.clone(),
        available_component_ids: c_ids.clone(),
    };
    let parent2 = SystemAllocationGenome { genes: vec![1, 1, 1], function_ids: f_ids, available_component_ids: c_ids };
    let child = parent1.crossover(&parent2);
    assert_eq!(child.genes.len(), 3);
    for gene in child.genes {
        assert!(gene == 0 || gene == 1);
    }
}

#[test]
fn test_single_point() {
    let mut rng = StdRng::seed_from_u64(42);
    let p1 = vec![1, 1, 1, 1];
    let p2 = vec![2, 2, 2, 2];
    let split = rng.random_range(1..p1.len());
    let child = single_point_crossover_at(&p1, &p2, split);
    assert_eq!(child.len(), 4);
    assert!(child.contains(&1));
    assert!(child.contains(&2));
}

#[test]
fn test_uniform_crossover() {
    let mut rng = StdRng::seed_from_u64(123);
    let p1 = vec![1, 1, 1, 1, 1];
    let p2 = vec![2, 2, 2, 2, 2];
    let picks: Vec<bool> = p1.iter().map(|_| rng.random_bool(0.5)).collect();
    let child = uniform_crossover_with(&p1, &p2, &picks);
    let count_1 = child.iter().filter(|&&x| x == 1).count();
    let count_2 = child.iter().filter(|&&x| x == 2).count();
    assert!(count_1 > 0);
    assert!(count_2 > 0);
    assert_eq!(count_1 + count_2, 5);
}

#[test]
fn test_crossover_operators_shapes() {
    let a = vec![1u8, 2, 3, 4, 5];
    let b = vec![6u8, 7, 8, 9, 10];
    assert_eq!(single_point_crossover_at(&a, &b, 2), vec![1, 2, 8, 9, 10]);
    assert_eq!(uniform_crossover_with(&a, &b, &[true, false, true, false, false]), vec![1, 7, 3, 9, 10]);
    let c = single_point_crossover(&a, &b);
    assert_eq!(c[0], 1);
    assert_eq!(c[4], 10);
    let u = uniform_crossover(&a, &b);
    for i in 0..5 {
        assert!(u[i] == a[i] || u[i] == b[i]);
    }
    assert!(single_point_crossover::<u8>(&[], &[]).is_empty());
}

#[test]
fn test_genome_template_random_distance() {
    let (f_ids, c_ids) = mock_context();
    let t = SystemAllocationGenome::new_template(f_ids.clone(), c_ids.clone());
    assert_eq!(t.genes, vec![0, 0, 0]);
    let r = SystemAllocationGenome::new_random(f_ids.clone(), c_ids.clone());
    assert!(r.genes.iter().all(|&g| g < 2));
    let other = SystemAllocationGenome { genes: vec![0, 1, 1], function_ids: f_ids, available_component_ids: c_ids };
    assert_eq!(t.distance(&other), 2);
}

#[test]
fn realizations_follow_existing_artifacts() {
    let existing = raise::json::JsonValue::Array(vec![raise::json::JsonValue::from_str("old")]);
    let allocations = vec![("f1".to_string(), "c1".to_string()), ("f2".to_string(), "c2".to_string())];
    let out = raise::genetics::generated_artifacts(Some(&existing), &allocations);
    assert_eq!(
        out.stringify(),
        "[\"old\",{\"@type\":\"arcadia:realizes\",\"source\":\"f1\",\"target\":\"c1\",\"generated_by\":\"RaiseGeneticsEngine\"},\
{\"@type\":\"arcadia:realizes\",\"source\":\"f2\",\"target\":\"c2\",\"generated_by\":\"RaiseGeneticsEngine\"}]"
    );
    let none = raise::genetics::generated_artifacts(None, &Vec::new());
    assert_eq!(none.stringify(), "[]");
}

use golem_des::partition::{partition, partition_by, Partition, Partitionable};

#[derive(Debug, PartialEq)]
struct TestValue(f64);

impl Partitionable for TestValue {
    type Item = f64;

    fn item(&self) -> f64 {
        self.0
    }
}

#[test]
fn matches() {
    let into = |tv: &TestValue| tv.item();

    let partition = Partition::new(None);

    assert!(partition.matches(&TestValue(0.5), &into));
    assert!(partition.matches(&TestValue(-0.5), &into));
    assert!(partition.matches(&TestValue(1.5), &into));

    let mut partition = Partition::new(None);
    partition.upper = Some(1.0);

    assert!(partition.matches(&TestValue(0.5), &into));
    assert!(partition.matches(&TestValue(-0.5), &into));
    assert!(!partition.matches(&TestValue(1.5), &into));

    let partition = Partition::new(Some(0.0));

    assert!(partition.matches(&TestValue(0.5), &into));
    assert!(!partition.matches(&TestValue(-0.5), &into));
    assert!(partition.matches(&TestValue(1.5), &into));

    let mut partition = Partition::new(Some(0.0));
    partition.upper = Some(1.0);

    assert!(partition.matches(&TestValue(0.5), &into));
    assert!(!partition.matches(&TestValue(-0.5), &into));
    assert!(!partition.matches(&TestValue(1.5), &into));
}

#[test]
fn degenerate_partition() {
    let partitions = partition(Vec::<TestValue>::new(), &[0.0, 0.25]);
    assert!(partitions.is_empty());

    let partitions = partition(Vec::<TestValue>::new(), &[]);
    assert!(partitions.is_empty());

    let values = vec![TestValue(0.0)];
    let partitions = partition(values, &[]);
    assert_eq!(partitions.len(), 1);

    let part = &partitions[0];
    assert_eq!(part.lower, None);
    assert_eq!(part.upper, None);
    assert_eq!(part.values, vec![TestValue(0.0)]);
}

#[test]
fn valid_partition() {
    let values = vec![
        TestValue(0.15),
        TestValue(0.45),
        TestValue(0.1),
        TestValue(1.1),
        TestValue(11.0),
        TestValue(0.25),
    ];

    let partitions = partition(values, &[0.0, 0.25, 0.5, 1.0, 10.0]);
    assert_eq!(partitions.len(), 6);

    let part = &partitions[0];
    assert_eq!(part.lower, None);
    assert_eq!(part.upper, Some(0.0));
    assert_eq!(part.values, vec![]);

    let part = &partitions[1];
    assert_eq!(part.lower, Some(0.0));
    assert_eq!(part.upper, Some(0.25));
    assert_eq!(part.values, vec![TestValue(0.1), TestValue(0.15)]);

    let part = &partitions[2];
    assert_eq!(part.lower, Some(0.25));
    assert_eq!(part.upper, Some(0.5));
    assert_eq!(part.values, vec![TestValue(0.25), TestValue(0.45)]);

    let part = &partitions[3];
    assert_eq!(part.lower, Some(0.5));
    assert_eq!(part.upper, Some(1.0));
    assert_eq!(part.values, vec![]);

    let part = &partitions[4];
    assert_eq!(part.lower, Some(1.0));
    assert_eq!(part.upper, Some(10.0));
    assert_eq!(part.values, vec![TestValue(1.1)]);

    let part = &partitions[5];
    assert_eq!(part.lower, Some(10.0));
    assert_eq!(part.upper, None);
    assert_eq!(part.values, vec![TestValue(11.0)]);
}

#[test]
fn values_of_equal_keys_keep_their_order() {
    let values = vec![(3, 'a'), (1, 'b'), (3, 'c'), (2, 'd'), (1, 'e'), (7, 'f')];
    let partitions = partition_by(values, &[2, 5], |v: &(i32, char)| v.0);
    assert_eq!(partitions.len(), 3);
    assert_eq!(partitions[0].boundaries(), (None, Some(2)));
    assert_eq!(partitions[0].values, vec![(1, 'b'), (1, 'e')]);
    assert_eq!(partitions[1].boundaries(), (Some(2), Some(5)));
    assert_eq!(partitions[1].values, vec![(2, 'd'), (3, 'a'), (3, 'c')]);
    assert_eq!(partitions[2].boundaries(), (Some(5), None));
    assert_eq!(partitions[2].values, vec![(7, 'f')]);
    let total: usize = partitions.iter().map(|p| p.len()).sum();
    assert_eq!(total, 6);
}

#[test]
fn a_key_on_a_boundary_belongs_to_the_partition_that_begins_there() {
    let partitions = partition_by(vec![10u32, 20, 30], &[10u32, 20, 30], |v: &u32| *v);
    assert_eq!(partitions.len(), 4);
    assert!(partitions[0].is_empty());
    assert_eq!(partitions[1].values, vec![10]);
    assert_eq!(partitions[2].values, vec![20]);
    assert_eq!(partitions[3].values, vec![30]);
}

#[test]
fn going_through_a_partition() {
    let mut part: Partition<i64, i64> = Partition::new(Some(0));
    assert!(part.is_empty());
    part.insert(4);
    part.insert(2);
    part.insert(9);
    assert_eq!(part.len(), 3);
    assert_eq!(part.iter().cloned().collect::<Vec<i64>>(), vec![4, 2, 9]);
    for value in part.iter_mut() {
        *value += 1;
    }
    assert_eq!(part.values(), &vec![5, 3, 10]);
    assert_eq!(part.boundaries(), (Some(0), None));
    assert_eq!(part.into_values(), vec![5, 3, 10]);
}

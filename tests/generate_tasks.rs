use ekvsb::generate::{generate_tasks, key_symbols, make_task, pad_seed, shuffle_workload, WorkloadCommand};
use ekvsb::task::{Error, Key, Task, ValueSpec};

fn get_command(count: usize, population_size: Option<usize>, seed: Option<&str>, shuffle: Option<&str>) -> WorkloadCommand {
    WorkloadCommand::Get {
        count,
        population_size,
        key_size: 10,
        seed: seed.map(|s| s.to_string()),
        shuffle: shuffle.map(|s| s.to_string()),
    }
}

fn keys_of(tasks: &[Task]) -> Vec<String> {
    tasks
        .iter()
        .map(|t| match t {
            Task::Put { key, .. } | Task::Get { key, .. } | Task::Delete { key, .. } => {
                key.as_str().to_string()
            }
        })
        .collect()
}

#[test]
fn generates_exactly_count_tasks() {
    for (count, population) in [(0, None), (1, None), (10, None), (10, Some(10)), (3, Some(50))] {
        let tasks = generate_tasks(&get_command(count, population, Some("s"), None)).unwrap();
        assert_eq!(tasks.len(), count);
    }
}

#[test]
fn count_above_population_is_refused() {
    let err = generate_tasks(&get_command(11, Some(10), Some("s"), None)).unwrap_err();
    assert_eq!(err, Error::CountExceedsPopulation { count: 11, population_size: 10 });
}

#[test]
fn count_check_comes_before_seed_checks() {
    let long = "x".repeat(40);
    let err = generate_tasks(&get_command(2, Some(1), Some(&long), Some(&long))).unwrap_err();
    assert_eq!(err, Error::CountExceedsPopulation { count: 2, population_size: 1 });
}

#[test]
fn seed_over_thirty_two_bytes_is_refused() {
    let err = generate_tasks(&get_command(1, None, Some(&"x".repeat(33)), None)).unwrap_err();
    assert_eq!(err, Error::SeedTooLong { len: 33 });
    let err = generate_tasks(&get_command(1, None, Some("s"), Some(&"y".repeat(34)))).unwrap_err();
    assert_eq!(err, Error::SeedTooLong { len: 34 });
    assert!(generate_tasks(&get_command(1, None, Some(&"x".repeat(32)), Some(&"y".repeat(32)))).is_ok());
}

#[test]
fn keys_are_alphanumeric_of_the_key_size() {
    let command = WorkloadCommand::Delete {
        count: 20,
        population_size: None,
        key_size: 7,
        seed: None,
        shuffle: None,
    };
    let tasks = generate_tasks(&command).unwrap();
    for task in &tasks {
        assert!(matches!(task, Task::Delete { .. }));
    }
    for key in keys_of(&tasks) {
        assert_eq!(key.len(), 7);
        assert!(key.bytes().all(|b| b.is_ascii_alphanumeric()));
    }
}

#[test]
fn put_tasks_carry_the_value_size() {
    let command = WorkloadCommand::Put {
        count: 5,
        population_size: Some(8),
        key_size: 3,
        value_size: 1024,
        seed: Some("seed".to_string()),
        shuffle: None,
    };
    for task in generate_tasks(&command).unwrap() {
        match task {
            Task::Put { value: ValueSpec::Random { size }, .. } => assert_eq!(size, 1024),
            _ => panic!("not a put"),
        }
    }
}

#[test]
fn same_seed_gives_same_keys() {
    let a = generate_tasks(&get_command(50, Some(80), Some("foo"), None)).unwrap();
    let b = generate_tasks(&get_command(50, Some(80), Some("foo"), None)).unwrap();
    assert_eq!(keys_of(&a), keys_of(&b));
    let c = generate_tasks(&get_command(50, Some(80), Some("bar"), None)).unwrap();
    assert_ne!(keys_of(&a), keys_of(&c));
}

#[test]
fn count_keeps_a_prefix_of_the_population() {
    let all = generate_tasks(&get_command(30, Some(30), Some("p"), None)).unwrap();
    let some = generate_tasks(&get_command(12, Some(30), Some("p"), None)).unwrap();
    assert_eq!(keys_of(&some), keys_of(&all)[..12].to_vec());
}

#[test]
fn same_shuffle_seed_gives_same_order() {
    let a = generate_tasks(&get_command(40, None, Some("k"), Some("t"))).unwrap();
    let b = generate_tasks(&get_command(40, None, Some("k"), Some("t"))).unwrap();
    assert_eq!(keys_of(&a), keys_of(&b));
}

#[test]
fn shuffle_seed_changes_order_but_not_keys() {
    let plain = keys_of(&generate_tasks(&get_command(40, None, Some("k"), None)).unwrap());
    let t1 = keys_of(&generate_tasks(&get_command(40, None, Some("k"), Some("t1"))).unwrap());
    let t2 = keys_of(&generate_tasks(&get_command(40, None, Some("k"), Some("t2"))).unwrap());
    assert_ne!(plain, t1);
    assert_ne!(t1, t2);
    let mut sorted_plain = plain.clone();
    let mut sorted_t1 = t1.clone();
    let mut sorted_t2 = t2.clone();
    sorted_plain.sort();
    sorted_t1.sort();
    sorted_t2.sort();
    assert_eq!(sorted_plain, sorted_t1);
    assert_eq!(sorted_plain, sorted_t2);
}

#[test]
fn shuffle_workload_permutes() {
    let mut tasks: Vec<Task> =
        (0..20).map(|i| Task::Get { key: Key::new(format!("k{}", i)), priority: 0 }).collect();
    let before = keys_of(&tasks);
    shuffle_workload(&mut tasks, [7; 32]);
    let after = keys_of(&tasks);
    assert_ne!(before, after);
    let mut a = before.clone();
    let mut b = after.clone();
    a.sort();
    b.sort();
    assert_eq!(a, b);
}

#[test]
fn pad_seed_zero_pads() {
    let padded = pad_seed("ab").unwrap();
    assert_eq!(padded[0], b'a');
    assert_eq!(padded[1], b'b');
    assert!(padded[2..].iter().all(|&b| b == 0));
    assert_eq!(pad_seed(""), Ok([0; 32]));
    assert_eq!(pad_seed(&"z".repeat(33)), Err(Error::SeedTooLong { len: 33 }));
    assert_eq!(pad_seed("é"), Ok({
        let mut s = [0u8; 32];
        s[0] = 0xc3;
        s[1] = 0xa9;
        s
    }));
}

#[test]
fn key_symbols_in_drawing_order() {
    assert_eq!(
        key_symbols(),
        b"0123456789abcdefghijklmnopqrstuvwxyzABCDEFGHIJKLMNOPQRSTUVWXYZ".to_vec()
    );
}

#[test]
fn command_getters_and_make_task() {
    let command = WorkloadCommand::Put {
        count: 3,
        population_size: Some(4),
        key_size: 5,
        value_size: 6,
        seed: Some("a".to_string()),
        shuffle: None,
    };
    assert_eq!(command.count(), 3);
    assert_eq!(command.population_size(), Some(4));
    assert_eq!(command.key_size(), 5);
    assert_eq!(command.seed(), Some("a"));
    assert_eq!(command.shuffle(), None);
    match make_task(&command, Key::new("q".to_string())) {
        Task::Put { key, value: ValueSpec::Random { size }, priority } => {
            assert_eq!(key.as_str(), "q");
            assert_eq!(size, 6);
            assert_eq!(priority, 0);
        }
        _ => panic!("not a put"),
    }
    let get = get_command(1, None, None, Some("s"));
    assert_eq!(get.shuffle(), Some("s"));
    assert!(matches!(make_task(&get, Key::new("q".to_string())), Task::Get { .. }));
}

#[test]
fn generated_tasks_have_default_priority() {
    for task in generate_tasks(&get_command(5, None, Some("s"), None)).unwrap() {
        assert!(matches!(task, Task::Get { priority: 0, .. }));
    }
}

#[test]
fn zero_padded_seed_gives_same_keys() {
    let a = generate_tasks(&get_command(20, None, Some("foo"), Some("t"))).unwrap();
    let b = generate_tasks(&get_command(20, None, Some("foo\0\0\0"), Some("t\0"))).unwrap();
    assert_eq!(keys_of(&a), keys_of(&b));
}

#[test]
fn population_defaults_to_count() {
    let a = generate_tasks(&get_command(15, None, Some("d"), None)).unwrap();
    let b = generate_tasks(&get_command(15, Some(15), Some("d"), None)).unwrap();
    assert_eq!(keys_of(&a), keys_of(&b));
}

/// Where each shuffled key came from in the unshuffled population.
fn shuffle_positions(seed: &str) -> Vec<usize> {
    let plain = keys_of(&generate_tasks(&get_command(30, None, Some(seed), None)).unwrap());
    let shuffled = keys_of(&generate_tasks(&get_command(30, None, Some(seed), Some("t"))).unwrap());
    shuffled.iter().map(|k| plain.iter().position(|p| p == k).unwrap()).collect()
}

#[test]
fn shuffle_order_does_not_depend_on_generation_seed() {
    let first = shuffle_positions("one");
    assert_eq!(first, shuffle_positions("two"));
    let mut sorted = first.clone();
    sorted.sort();
    assert_eq!(sorted, (0..30).collect::<Vec<usize>>());
}

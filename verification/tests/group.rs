use balancer::balancer::Balancer;
use balancer::collection::Collection;
use balancer::distribution::Distribution;
use balancer::transport::Action;

/// Runs a distribution of `data` over `size` ranks with an in-memory
/// transport and returns what each rank ends up with, by rank.
fn run_distribution(data: Vec<u64>, size: usize) -> Vec<Vec<u64>> {
    let mut mailbox: Vec<Option<Vec<u64>>> = (0..size).map(|_| None).collect();
    let mut results: Vec<Vec<u64>> = Vec::new();

    // the root goes first: all its sends are buffered
    let root: Balancer<u64> = Balancer::new(0, size, 1);
    let mut session = root.distribute(Some(data));
    let mut expected_to = 1;
    let mut barriers = 0;
    loop {
        assert!(!session.awaiting());
        match session.step(None) {
            Action::Send { to, payload } => {
                assert_eq!(to, expected_to, "shares go out in rank order");
                assert_eq!(barriers, 0);
                expected_to += 1;
                assert!(mailbox[to].is_none());
                mailbox[to] = Some(payload);
            }
            Action::Receive { .. } => panic!("the root receives nothing"),
            Action::Barrier => barriers += 1,
            Action::Finish { result } => {
                results.push(result.expect("a distribution ends with a share"));
                break;
            }
        }
    }
    assert_eq!(expected_to, size);
    assert_eq!(barriers, 1);

    for rank in 1..size {
        let follower: Balancer<u64> = Balancer::new(rank, size, 1);
        let mut session = follower.distribute(None);
        let mut reply = None;
        let mut barriers = 0;
        loop {
            assert_eq!(session.awaiting(), reply.is_some());
            match session.step(reply.take()) {
                Action::Send { .. } => panic!("a follower sends nothing"),
                Action::Receive { from } => {
                    assert_eq!(from, 0);
                    reply = Some(mailbox[rank].take().expect("one share per rank"));
                }
                Action::Barrier => barriers += 1,
                Action::Finish { result } => {
                    results.push(result.expect("a distribution ends with a share"));
                    break;
                }
            }
        }
        assert_eq!(barriers, 1);
    }
    results
}

/// Runs a collection over balancers that have staged their outputs, with
/// an in-memory transport, and returns what each rank ends up with.
fn run_collection(balancers: &mut [Balancer<u64>]) -> Vec<Option<Vec<u64>>> {
    let size = balancers.len();
    let mut mailbox: Vec<Option<Vec<u64>>> = (0..size).map(|_| None).collect();
    let mut results: Vec<Option<Vec<u64>>> = (0..size).map(|_| None).collect();

    // followers first: their sends are buffered
    for rank in 1..size {
        let mut session = balancers[rank].collect();
        let mut barriers = 0;
        let mut sent = false;
        loop {
            assert!(!session.awaiting());
            match session.step(None) {
                Action::Send { to, payload } => {
                    assert_eq!(to, 0);
                    assert!(!sent && barriers == 0);
                    sent = true;
                    mailbox[rank] = Some(payload);
                }
                Action::Receive { .. } => panic!("a follower receives nothing"),
                Action::Barrier => barriers += 1,
                Action::Finish { result } => {
                    results[rank] = result;
                    break;
                }
            }
        }
        assert!(sent);
        assert_eq!(barriers, 1);
    }

    let mut session = balancers[0].collect();
    let mut reply = None;
    let mut expected_from = 1;
    let mut barriers = 0;
    loop {
        assert_eq!(session.awaiting(), reply.is_some());
        match session.step(reply.take()) {
            Action::Send { .. } => panic!("the root sends nothing"),
            Action::Receive { from } => {
                assert_eq!(from, expected_from, "outputs come in by rank order");
                assert_eq!(barriers, 0);
                expected_from += 1;
                reply = Some(mailbox[from].take().expect("one output per rank"));
            }
            Action::Barrier => barriers += 1,
            Action::Finish { result } => {
                results[0] = result;
                break;
            }
        }
    }
    assert_eq!(expected_from, size);
    assert_eq!(barriers, 1);
    results
}

fn square(x: &u64) -> u64 {
    x * x
}

fn same(x: &u64) -> u64 {
    *x
}

#[test]
fn new_keeps_what_it_is_given() {
    let b: Balancer<u64> = Balancer::new(2, 5, 8);
    assert_eq!(b.rank(), 2);
    assert_eq!(b.size(), 5);
    assert_eq!(b.workers(), 8);
}

#[test]
fn only_a_verbose_root_announces() {
    let root: Balancer<u64> = Balancer::new(0, 3, 4);
    let follower: Balancer<u64> = Balancer::new(1, 3, 4);
    assert!(root.announces(true));
    assert!(!root.announces(false));
    assert!(!follower.announces(true));
    assert!(!follower.announces(false));
}

#[test]
fn get_subset_slices_by_rank() {
    let data: Vec<u64> = (0..10).collect();
    let r0: Balancer<u64> = Balancer::new(0, 3, 1);
    let r1: Balancer<u64> = Balancer::new(1, 3, 1);
    let r2: Balancer<u64> = Balancer::new(2, 3, 1);
    assert_eq!(r0.get_subset(&data), &[0, 1, 2, 3]);
    assert_eq!(r1.get_subset(&data), &[4, 5, 6, 7]);
    assert_eq!(r2.get_subset(&data), &[8, 9]);
}

#[test]
fn get_subset_of_trailing_rank_is_empty() {
    let data: Vec<u64> = (0..10).collect();
    let last: Balancer<u64> = Balancer::new(6, 7, 1);
    assert!(last.get_subset(&data).is_empty());
    let none: Vec<u64> = Vec::new();
    let root: Balancer<u64> = Balancer::new(0, 7, 1);
    assert!(root.get_subset(&none).is_empty());
}

#[test]
fn work_then_collect_on_a_single_rank() {
    let items: Vec<u64> = vec![3, 1, 4, 1, 5, 9, 2, 6];
    let mut alone: Balancer<u64> = Balancer::new(0, 1, 4);
    alone.work(&items, square);
    let results = run_collection(std::slice::from_mut(&mut alone));
    assert_eq!(results, vec![Some(vec![9, 1, 16, 1, 25, 81, 4, 36])]);
}

#[test]
fn work_keeps_positions_on_many_items() {
    let items: Vec<u64> = (0..20_000).collect();
    let mut alone: Balancer<u64> = Balancer::new(0, 1, 4);
    alone.work(&items, |x: &u64| x * 3 + 1);
    let results = run_collection(std::slice::from_mut(&mut alone));
    let expected: Vec<u64> = (0..20_000).map(|x| x * 3 + 1).collect();
    assert_eq!(results, vec![Some(expected)]);
}

#[test]
fn work_on_nothing_stages_an_empty_output() {
    let items: Vec<u64> = Vec::new();
    let mut alone: Balancer<u64> = Balancer::new(0, 1, 4);
    alone.work(&items, square);
    let results = run_collection(std::slice::from_mut(&mut alone));
    assert_eq!(results, vec![Some(Vec::new())]);
}

#[test]
fn a_new_run_replaces_the_staged_one() {
    let mut alone: Balancer<u64> = Balancer::new(0, 1, 4);
    alone.work(&[1, 2, 3], square);
    alone.work(&[10, 20], same);
    let results = run_collection(std::slice::from_mut(&mut alone));
    assert_eq!(results, vec![Some(vec![10, 20])]);
}

#[test]
fn collect_twice_gives_some_then_none() {
    let mut alone: Balancer<u64> = Balancer::new(0, 1, 4);
    alone.work(&[1, 2, 3], square);
    let first = run_collection(std::slice::from_mut(&mut alone));
    assert_eq!(first, vec![Some(vec![1, 4, 9])]);

    let mut second = alone.collect();
    assert!(!second.awaiting());
    assert!(matches!(second.step(None), Action::Finish { result: None }));
}

#[test]
fn collect_with_nothing_staged_ends_at_once_on_any_rank() {
    for rank in 0..3 {
        let mut b: Balancer<u64> = Balancer::new(rank, 3, 1);
        let mut session = b.collect();
        assert!(!session.awaiting());
        assert!(matches!(session.step(None), Action::Finish { result: None }));
    }
}

#[test]
fn a_finished_session_stays_finished() {
    let mut alone: Balancer<u64> = Balancer::new(0, 1, 1);
    alone.work(&[7], same);
    let mut session = alone.collect();
    assert!(matches!(session.step(None), Action::Barrier));
    match session.step(None) {
        Action::Finish { result } => assert_eq!(result, Some(vec![7])),
        _ => panic!("the session ends after the barrier"),
    }
    assert!(matches!(session.step(None), Action::Finish { result: None }));
    assert!(matches!(session.step(None), Action::Finish { result: None }));

    let mut handing_out = alone.distribute(Some(vec![1, 2]));
    assert!(matches!(handing_out.step(None), Action::Barrier));
    match handing_out.step(None) {
        Action::Finish { result } => assert_eq!(result, Some(vec![1, 2])),
        _ => panic!("the session ends after the barrier"),
    }
    assert!(matches!(handing_out.step(None), Action::Finish { result: None }));
}

#[test]
fn distribute_hands_out_contiguous_shares() {
    let data: Vec<u64> = (0..10).collect();
    let shares = run_distribution(data, 3);
    assert_eq!(shares, vec![vec![0, 1, 2, 3], vec![4, 5, 6, 7], vec![8, 9]]);
}

#[test]
fn distribute_on_a_single_rank_keeps_everything() {
    let data: Vec<u64> = (0..10).collect();
    let shares = run_distribution(data.clone(), 1);
    assert_eq!(shares, vec![data]);
}

#[test]
fn distribute_serves_every_rank_even_with_nothing() {
    let shares = run_distribution(vec![5, 6], 5);
    assert_eq!(shares, vec![vec![5], vec![6], vec![], vec![], vec![]]);
    let shares = run_distribution(Vec::new(), 3);
    assert_eq!(shares, vec![Vec::<u64>::new(), vec![], vec![]]);
}

#[test]
fn root_distribution_names_sends_then_barrier_then_finish() {
    let root: Balancer<u64> = Balancer::new(0, 3, 1);
    let mut session = root.distribute(Some((0..10).collect()));
    match session.step(None) {
        Action::Send { to, payload } => {
            assert_eq!(to, 1);
            assert_eq!(payload, vec![4, 5, 6, 7]);
        }
        _ => panic!("the first share goes to rank 1"),
    }
    match session.step(None) {
        Action::Send { to, payload } => {
            assert_eq!(to, 2);
            assert_eq!(payload, vec![8, 9]);
        }
        _ => panic!("the second share goes to rank 2"),
    }
    assert!(matches!(session.step(None), Action::Barrier));
    match session.step(None) {
        Action::Finish { result } => assert_eq!(result, Some(vec![0, 1, 2, 3])),
        _ => panic!("the root ends with its own share"),
    }
}

#[test]
fn follower_distribution_receives_then_barrier_then_finish() {
    let follower: Balancer<u64> = Balancer::new(2, 3, 1);
    let mut session = follower.distribute(None);
    assert!(!session.awaiting());
    assert!(matches!(session.step(None), Action::Receive { from: 0 }));
    assert!(session.awaiting());
    assert!(matches!(session.step(Some(vec![8, 9])), Action::Barrier));
    assert!(!session.awaiting());
    match session.step(None) {
        Action::Finish { result } => assert_eq!(result, Some(vec![8, 9])),
        _ => panic!("the follower ends with what it received"),
    }
}

#[test]
fn follower_collection_sends_then_barrier_then_finish() {
    let mut follower: Balancer<u64> = Balancer::new(1, 2, 1);
    follower.work(&[2, 3], square);
    let mut session = follower.collect();
    match session.step(None) {
        Action::Send { to, payload } => {
            assert_eq!(to, 0);
            assert_eq!(payload, vec![4, 9]);
        }
        _ => panic!("a follower sends its output first"),
    }
    assert!(matches!(session.step(None), Action::Barrier));
    assert!(matches!(session.step(None), Action::Finish { result: None }));
}

#[test]
fn root_collection_appends_in_rank_order() {
    let mut session: Collection<u64> = Collection::begin(0, 3, Some(vec![1, 2]));
    assert!(matches!(session.step(None), Action::Receive { from: 1 }));
    assert!(session.awaiting());
    assert!(matches!(session.step(Some(vec![3])), Action::Receive { from: 2 }));
    assert!(session.awaiting());
    assert!(matches!(session.step(Some(vec![4, 5, 6])), Action::Barrier));
    assert!(!session.awaiting());
    match session.step(None) {
        Action::Finish { result } => assert_eq!(result, Some(vec![1, 2, 3, 4, 5, 6])),
        _ => panic!("the root ends with everything"),
    }
}

#[test]
fn sessions_can_be_begun_directly() {
    let mut session: Distribution<u64> = Distribution::begin(0, 2, Some(vec![1, 2, 3]));
    match session.step(None) {
        Action::Send { to, payload } => {
            assert_eq!(to, 1);
            assert_eq!(payload, vec![3]);
        }
        _ => panic!("the share of rank 1 goes out first"),
    }
}

#[test]
fn squares_of_ten_over_three_ranks() {
    let data: Vec<u64> = (0..10).collect();
    let shares = run_distribution(data, 3);
    let mut group: Vec<Balancer<u64>> = (0..3).map(|rank| Balancer::new(rank, 3, 2)).collect();
    for (balancer, share) in group.iter_mut().zip(shares.iter()) {
        balancer.work(share, square);
    }
    let results = run_collection(&mut group);
    assert_eq!(results[0], Some(vec![0, 1, 4, 9, 16, 25, 36, 49, 64, 81]));
    assert_eq!(results[1], None);
    assert_eq!(results[2], None);
}

#[test]
fn distribute_then_collect_gives_the_data_back() {
    for size in 1..8usize {
        for len in 1..30u64 {
            let data: Vec<u64> = (0..len).map(|x| x * 7 + 3).collect();
            let shares = run_distribution(data.clone(), size);
            let mut group: Vec<Balancer<u64>> =
                (0..size).map(|rank| Balancer::new(rank, size, 1)).collect();
            for (balancer, share) in group.iter_mut().zip(shares.iter()) {
                balancer.work(share, same);
            }
            let results = run_collection(&mut group);
            assert_eq!(results[0], Some(data));
            for rank in 1..size {
                assert_eq!(results[rank], None);
            }
        }
    }
}

#[test]
fn work_subset_on_every_rank_covers_the_data() {
    let data: Vec<u64> = (0..25).collect();
    for size in 1..7usize {
        let mut group: Vec<Balancer<u64>> =
            (0..size).map(|rank| Balancer::new(rank, size, 1)).collect();
        for balancer in group.iter_mut() {
            balancer.work_subset(&data, square);
        }
        let results = run_collection(&mut group);
        let expected: Vec<u64> = data.iter().map(square).collect();
        assert_eq!(results[0], Some(expected));
    }
}

#[test]
fn work_local_maps_the_rank_share() {
    let data: Vec<u64> = (0..10).collect();
    let mut alone: Balancer<u64> = Balancer::new(0, 1, 2);
    alone.work_local(&data, square);
    let results = run_collection(std::slice::from_mut(&mut alone));
    assert_eq!(results, vec![Some(vec![0, 1, 4, 9, 16, 25, 36, 49, 64, 81])]);

    let mut second: Balancer<u64> = Balancer::new(1, 3, 2);
    second.work_local(&data, square);
    let mut session = second.collect();
    match session.step(None) {
        Action::Send { to, payload } => {
            assert_eq!(to, 0);
            assert_eq!(payload, vec![16, 25, 36, 49]);
        }
        _ => panic!("a follower sends its output first"),
    }
}

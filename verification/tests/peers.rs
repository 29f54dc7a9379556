use seamless_focus::ancestry::{
    first_unread, get_parent_pid, get_parents_pids, parse_parent_pid, stat_path, ProcessTable,
    MAX_ANCESTRY_DEPTH,
};
use seamless_focus::error::ResolveError;
use seamless_focus::protocol::socket_path;
use seamless_focus::registry::{
    chain_contains, get_all_ssht_pids, get_pid, get_ssht_pid_from_ppid, next_unread,
};

fn stat_line(pid: u32, ppid: u32) -> Vec<u8> {
    format!("{} (proc) S {} {} {} 0 -1 4194560 100 0 0 0\n", pid, ppid, pid, pid).into_bytes()
}

fn table_of(links: &[(u32, u32)]) -> ProcessTable {
    let mut table = ProcessTable::new();
    for (pid, ppid) in links.iter() {
        table.record(*pid, stat_line(*pid, *ppid));
    }
    table
}

fn listing_of(names: &[&str]) -> Vec<Vec<u8>> {
    names.iter().map(|n| n.as_bytes().to_vec()).collect()
}

#[test]
fn parent_follows_the_command_name_and_the_state() {
    assert_eq!(parse_parent_pid(b"4242 (bash) S 4000 4242 4242 34816"), Ok(Some(4000)));
    assert_eq!(parse_parent_pid(&stat_line(10, 9)), Ok(Some(9)));
    assert_eq!(parse_parent_pid(b"7 (x) R 4294967295"), Ok(Some(u32::MAX)));
}

#[test]
fn command_name_may_hold_spaces_and_parentheses() {
    assert_eq!(
        parse_parent_pid(b"4242 (tmux: server) S 1 4242 4242 0 -1 4194560"),
        Ok(Some(1))
    );
    assert_eq!(parse_parent_pid(b"77 (Web Content) S 70 77"), Ok(Some(70)));
    assert_eq!(parse_parent_pid(b"77 ((sd-pam)) S 70 77"), Ok(Some(70)));
    assert_eq!(parse_parent_pid(b"77 (a) b) S 70 77"), Ok(Some(70)));
    assert_eq!(parse_parent_pid(b"77 (a (b c) S 70 77"), Ok(Some(70)));
    assert_eq!(parse_parent_pid(b"77 (1 2 3 4 5) S 70 77"), Ok(Some(70)));
    assert_eq!(parse_parent_pid(b"77 () S 0 77"), Ok(None));
}

#[test]
fn line_without_a_command_name_is_malformed() {
    assert_eq!(parse_parent_pid(b"1 2 3 4"), Err(ResolveError::EnvironmentRead));
    assert_eq!(parse_parent_pid(b"1 (a S 1 1"), Err(ResolveError::EnvironmentRead));
    assert_eq!(parse_parent_pid(b"1 a) S 1 1"), Err(ResolveError::EnvironmentRead));
    assert_eq!(parse_parent_pid(b"1 )a( S 1 1"), Err(ResolveError::EnvironmentRead));
    assert_eq!(parse_parent_pid(b"1 (a)"), Err(ResolveError::EnvironmentRead));
    assert_eq!(parse_parent_pid(b"1 (a) S 1 (b)"), Err(ResolveError::EnvironmentRead));
}

#[test]
fn parent_zero_means_no_parent() {
    assert_eq!(parse_parent_pid(b"1 (systemd) S 0 1 1 0"), Ok(None));
    assert_eq!(parse_parent_pid(b"1 (systemd) S 000 1"), Ok(None));
}

#[test]
fn malformed_stat_is_an_environment_failure() {
    assert_eq!(parse_parent_pid(b""), Err(ResolveError::EnvironmentRead));
    assert_eq!(parse_parent_pid(b"1 (a) S"), Err(ResolveError::EnvironmentRead));
    assert_eq!(parse_parent_pid(b"1 (a) S x 1"), Err(ResolveError::EnvironmentRead));
    assert_eq!(parse_parent_pid(b"1 (a) S -1 1"), Err(ResolveError::EnvironmentRead));
    assert_eq!(parse_parent_pid(b"1 (a) S  7 1"), Err(ResolveError::EnvironmentRead));
    assert_eq!(parse_parent_pid(b"1 (a) S 99999999999 1"), Err(ResolveError::EnvironmentRead));
    assert_eq!(parse_parent_pid(b"1 (a) S 7"), Ok(Some(7)));
    assert_eq!(parse_parent_pid(b"1 (a) S 7\n"), Err(ResolveError::EnvironmentRead));
}

#[test]
fn table_lookup_takes_the_latest_record() {
    let mut table = ProcessTable::new();
    assert!(table.stat_of(5).is_none());
    table.record(5, b"first".to_vec());
    table.record(6, b"other".to_vec());
    assert_eq!(table.stat_of(5), Some(&b"first".to_vec()));
    table.record(5, b"second".to_vec());
    assert_eq!(table.stat_of(5), Some(&b"second".to_vec()));
    assert_eq!(table.stat_of(6), Some(&b"other".to_vec()));
    assert!(table.stat_of(7).is_none());
}

#[test]
fn parent_of_missing_process_fails() {
    let table = table_of(&[(10, 1), (1, 0)]);
    assert_eq!(get_parent_pid(&table, 10), Ok(Some(1)));
    assert_eq!(get_parent_pid(&table, 1), Ok(None));
    assert_eq!(get_parent_pid(&table, 11), Err(ResolveError::EnvironmentRead));
}

#[test]
fn ancestors_come_nearest_first() {
    let table = table_of(&[(1, 0), (100, 1), (200, 100), (300, 200)]);
    assert_eq!(get_parents_pids(&table, 300), Ok(vec![200, 100, 1]));
    assert_eq!(get_parents_pids(&table, 100), Ok(vec![1]));
    assert_eq!(get_parents_pids(&table, 1), Ok(vec![]));
}

#[test]
fn walk_fails_whole_when_a_process_is_gone() {
    let table = table_of(&[(1, 0), (200, 100), (300, 200)]);
    assert_eq!(get_parents_pids(&table, 300), Err(ResolveError::EnvironmentRead));
    assert_eq!(get_parents_pids(&table, 999), Err(ResolveError::EnvironmentRead));
}

#[test]
fn walk_fails_whole_on_malformed_state() {
    let mut table = table_of(&[(1, 0), (300, 200)]);
    table.record(200, b"200 (two) S one 200".to_vec());
    assert_eq!(get_parents_pids(&table, 300), Err(ResolveError::EnvironmentRead));
}

#[test]
fn walk_over_a_cycle_ends_at_the_bound() {
    let table = table_of(&[(5, 6), (6, 5)]);
    assert_eq!(get_parents_pids(&table, 5), Err(ResolveError::AncestryTooDeep));
    let own = table_of(&[(7, 7)]);
    assert_eq!(get_parents_pids(&own, 7), Err(ResolveError::AncestryTooDeep));
}

#[test]
fn walk_ends_for_every_depth_up_to_many_hops() {
    let depths: [u32; 6] = [1, 2, 3, 10, 100, 1500];
    for n in depths.iter() {
        let mut links: Vec<(u32, u32)> = Vec::new();
        for pid in 1..=*n {
            links.push((pid, pid - 1));
        }
        let table = table_of(&links);
        let chain = get_parents_pids(&table, *n).unwrap();
        let expected: Vec<u32> = (1..*n).rev().collect();
        assert_eq!(chain, expected);
    }
    assert!(MAX_ANCESTRY_DEPTH > 1500);
}

#[test]
fn entry_names_have_exactly_two_parts() {
    assert_eq!(get_pid(b"4242.sock"), Some(4242));
    assert_eq!(get_pid(b"4242.pid"), Some(4242));
    assert_eq!(get_pid(b"4242."), Some(4242));
    assert_eq!(get_pid(b"+7.sock"), Some(7));
    assert_eq!(get_pid(b"0.sock"), Some(0));
    assert_eq!(get_pid(b"4242"), None);
    assert_eq!(get_pid(b"4242.sock.bak"), None);
    assert_eq!(get_pid(b"4242..sock"), None);
    assert_eq!(get_pid(b".sock"), None);
    assert_eq!(get_pid(b"abc.sock"), None);
    assert_eq!(get_pid(b"12a.sock"), None);
    assert_eq!(get_pid(b""), None);
    assert_eq!(get_pid(b"."), None);
    assert_eq!(get_pid(b"4294967296.sock"), None);
}

#[test]
fn socket_name_registers_its_peer() {
    let peers: [u32; 5] = [0, 1, 4242, 65536, u32::MAX];
    for peer in peers.iter() {
        let path = socket_path(*peer);
        let name = &path[b"/tmp/ssht/".len()..];
        assert_eq!(get_pid(name), Some(*peer));
    }
}

#[test]
fn listing_skips_other_names_silently() {
    let listing = listing_of(&["4242.sock", "README", "12.a.b", "x.sock", "7.lock", "4242.sock"]);
    assert_eq!(get_all_ssht_pids(&listing), vec![4242, 7, 4242]);
    assert_eq!(get_all_ssht_pids(&Vec::new()), Vec::<u32>::new());
}

#[test]
fn chain_membership() {
    assert!(chain_contains(&vec![3, 2, 1], 2));
    assert!(chain_contains(&vec![3, 2, 1], 1));
    assert!(!chain_contains(&vec![3, 2, 1], 4));
    assert!(!chain_contains(&vec![], 0));
}

#[test]
fn no_peer_claims_the_target() {
    let table = table_of(&[(1, 0), (50, 1), (4242, 50), (60, 1), (5000, 60)]);
    let listing = listing_of(&["4242.sock", "5000.sock"]);
    assert_eq!(get_ssht_pid_from_ppid(&listing, &table, 77), Ok(None));
    assert_eq!(get_ssht_pid_from_ppid(&Vec::new(), &table, 50), Ok(None));
    assert_eq!(get_ssht_pid_from_ppid(&listing_of(&["notes.txt"]), &table, 50), Ok(None));
}

#[test]
fn the_one_claiming_peer_is_found() {
    let table = table_of(&[(1, 0), (50, 1), (4242, 50), (60, 1), (5000, 60)]);
    let listing = listing_of(&["4242.sock", "5000.sock"]);
    assert_eq!(get_ssht_pid_from_ppid(&listing, &table, 50), Ok(Some(4242)));
    assert_eq!(get_ssht_pid_from_ppid(&listing, &table, 60), Ok(Some(5000)));
}

#[test]
fn a_peer_is_not_its_own_ancestor() {
    let table = table_of(&[(1, 0), (50, 1), (4242, 50)]);
    let listing = listing_of(&["4242.sock"]);
    assert_eq!(get_ssht_pid_from_ppid(&listing, &table, 4242), Ok(None));
}

#[test]
fn two_claiming_peers_are_ambiguous() {
    let table = table_of(&[(1, 0), (50, 1), (4242, 50), (5000, 50)]);
    let listing = listing_of(&["4242.sock", "5000.sock"]);
    assert_eq!(get_ssht_pid_from_ppid(&listing, &table, 50), Err(ResolveError::AmbiguousPeer));
    assert_eq!(get_ssht_pid_from_ppid(&listing, &table, 1), Err(ResolveError::AmbiguousPeer));
    let reversed = listing_of(&["5000.sock", "4242.sock"]);
    assert_eq!(get_ssht_pid_from_ppid(&reversed, &table, 50), Err(ResolveError::AmbiguousPeer));
}

#[test]
fn a_peer_registered_twice_is_one_peer() {
    let table = table_of(&[(1, 0), (50, 1), (4242, 50)]);
    let listing = listing_of(&["4242.sock", "4242.lock"]);
    assert_eq!(get_ssht_pid_from_ppid(&listing, &table, 50), Ok(Some(4242)));
    assert_eq!(get_ssht_pid_from_ppid(&listing, &table, 77), Ok(None));
    let entry_and_socket = listing_of(&["4242.pid", "4242.sock"]);
    let chain = table_of(&[(4242, 200), (200, 1), (1, 0)]);
    assert_eq!(get_ssht_pid_from_ppid(&entry_and_socket, &chain, 200), Ok(Some(4242)));
    assert_eq!(get_ssht_pid_from_ppid(&entry_and_socket, &chain, 1), Ok(Some(4242)));
    let thrice = listing_of(&["4242.a", "4242.b", "+4242.c", "04242.d"]);
    assert_eq!(get_ssht_pid_from_ppid(&thrice, &chain, 200), Ok(Some(4242)));
}

#[test]
fn two_different_peers_stay_ambiguous_beside_a_repeated_one() {
    let table = table_of(&[(1, 0), (50, 1), (4242, 50), (5000, 50), (6000, 1)]);
    let listing = listing_of(&["4242.pid", "4242.sock", "5000.sock"]);
    assert_eq!(get_ssht_pid_from_ppid(&listing, &table, 50), Err(ResolveError::AmbiguousPeer));
    let interleaved = listing_of(&["4242.pid", "6000.sock", "4242.sock", "6000.pid"]);
    assert_eq!(get_ssht_pid_from_ppid(&interleaved, &table, 50), Ok(Some(4242)));
    assert_eq!(get_ssht_pid_from_ppid(&interleaved, &table, 1), Err(ResolveError::AmbiguousPeer));
}

#[test]
fn walk_passes_a_process_whose_name_has_a_space() {
    let mut table = table_of(&[(1, 0), (300, 4242)]);
    table.record(4242, b"4242 (tmux: server) S 1 4242 4242 0 -1 4194560".to_vec());
    assert_eq!(get_parent_pid(&table, 4242), Ok(Some(1)));
    assert_eq!(get_parents_pids(&table, 300), Ok(vec![4242, 1]));
}

#[test]
fn a_failed_walk_fails_the_search() {
    let table = table_of(&[(1, 0), (50, 1), (4242, 50)]);
    let listing = listing_of(&["4242.sock", "9999.sock"]);
    assert_eq!(get_ssht_pid_from_ppid(&listing, &table, 50), Err(ResolveError::EnvironmentRead));
    assert_eq!(get_ssht_pid_from_ppid(&listing, &table, 77), Err(ResolveError::EnvironmentRead));
}

#[test]
fn the_first_failed_walk_gives_the_error() {
    let table = table_of(&[(1, 0), (50, 1), (4242, 50), (5000, 50), (8, 9), (9, 8)]);
    let listing = listing_of(&["4242.sock", "8.sock", "9999.sock", "5000.sock"]);
    assert_eq!(get_ssht_pid_from_ppid(&listing, &table, 50), Err(ResolveError::AncestryTooDeep));
    let other = listing_of(&["9999.sock", "8.sock"]);
    assert_eq!(get_ssht_pid_from_ppid(&other, &table, 50), Err(ResolveError::EnvironmentRead));
}

/// Reads, from `world`, what the search asks for, and returns the
/// snapshot with the order of the reads.
fn read_on_demand(listing: &Vec<Vec<u8>>, world: &[(u32, u32)]) -> (ProcessTable, Vec<u32>) {
    let mut table = ProcessTable::new();
    let mut reads: Vec<u32> = Vec::new();
    while let Some(pid) = next_unread(listing, &table) {
        reads.push(pid);
        assert!(reads.len() <= world.len() + 1);
        match world.iter().find(|(p, _)| *p == pid) {
            Some((_, ppid)) => table.record(pid, stat_line(pid, *ppid)),
            None => break,
        }
    }
    (table, reads)
}

#[test]
fn first_unread_follows_the_walk() {
    let mut table = ProcessTable::new();
    assert_eq!(first_unread(&table, 300), Some(300));
    table.record(300, stat_line(300, 200));
    assert_eq!(first_unread(&table, 300), Some(200));
    table.record(200, stat_line(200, 1));
    assert_eq!(first_unread(&table, 300), Some(1));
    table.record(1, stat_line(1, 0));
    assert_eq!(first_unread(&table, 300), None);
    assert_eq!(first_unread(&table, 200), None);
    assert_eq!(first_unread(&table, 5), Some(5));
}

#[test]
fn first_unread_stops_at_malformed_state_and_cycles() {
    let mut table = ProcessTable::new();
    table.record(300, b"300 (x) S y 200".to_vec());
    assert_eq!(first_unread(&table, 300), None);
    let cycle = table_of(&[(5, 6), (6, 5)]);
    assert_eq!(first_unread(&cycle, 5), None);
}

#[test]
fn reads_on_demand_touch_only_the_walks() {
    let world: [(u32, u32); 7] =
        [(1, 0), (50, 1), (4242, 50), (60, 1), (5000, 60), (70, 1), (71, 70)];
    let listing = listing_of(&["4242.sock", "junk", "5000.sock"]);
    let (table, reads) = read_on_demand(&listing, &world);
    assert_eq!(reads, vec![4242, 50, 1, 5000, 60]);
    assert_eq!(next_unread(&listing, &table), None);
    assert!(table.stat_of(70).is_none());
    let full = table_of(&world);
    for target in [1u32, 50, 60, 70, 4242, 5000, 9].iter() {
        assert_eq!(
            get_ssht_pid_from_ppid(&listing, &table, *target),
            get_ssht_pid_from_ppid(&listing, &full, *target)
        );
    }
    assert_eq!(get_ssht_pid_from_ppid(&listing, &table, 60), Ok(Some(5000)));
}

#[test]
fn a_read_that_fails_ends_the_reads_and_fails_the_search() {
    let world: [(u32, u32); 3] = [(1, 0), (4242, 50), (5000, 1)];
    let listing = listing_of(&["4242.sock", "5000.sock"]);
    let (table, reads) = read_on_demand(&listing, &world);
    assert_eq!(reads, vec![4242, 50]);
    assert_eq!(next_unread(&listing, &table), Some(50));
    assert_eq!(get_ssht_pid_from_ppid(&listing, &table, 1), Err(ResolveError::EnvironmentRead));
}

#[test]
fn nothing_is_read_without_peers() {
    let table = ProcessTable::new();
    assert_eq!(next_unread(&Vec::new(), &table), None);
    assert_eq!(next_unread(&listing_of(&["README", "a.b.c"]), &table), None);
    assert_eq!(get_ssht_pid_from_ppid(&Vec::new(), &table, 1), Ok(None));
}

#[test]
fn stat_path_names_the_process() {
    assert_eq!(stat_path(1), b"/proc/1/stat".to_vec());
    assert_eq!(stat_path(4242), b"/proc/4242/stat".to_vec());
    assert_eq!(stat_path(u32::MAX), b"/proc/4294967295/stat".to_vec());
}

#[test]
fn answer_ignores_order_and_repeats() {
    let table = table_of(&[(1, 0), (50, 1), (4242, 50), (60, 1), (5000, 60)]);
    let orders: [&[&str]; 4] = [
        &["4242.sock", "5000.sock"],
        &["5000.sock", "4242.sock"],
        &["5000.pid", "4242.pid", "5000.sock", "4242.sock"],
        &["4242.sock", "4242.sock", "junk", "5000.sock"],
    ];
    for names in orders.iter() {
        let listing = listing_of(names);
        assert_eq!(get_ssht_pid_from_ppid(&listing, &table, 50), Ok(Some(4242)));
        assert_eq!(get_ssht_pid_from_ppid(&listing, &table, 60), Ok(Some(5000)));
        assert_eq!(get_ssht_pid_from_ppid(&listing, &table, 1), Err(ResolveError::AmbiguousPeer));
        assert_eq!(get_ssht_pid_from_ppid(&listing, &table, 7), Ok(None));
    }
}

use rsh::job::{Job, Jobs, ProccessState};

#[test]
fn insert_assigns_one_more_than_the_largest_live_jid() {
    let mut table = Jobs::new();
    assert_eq!(table.addjob(100, 100, ProccessState::BG, "sleep 5 &\n"), 1);
    assert_eq!(table.addjob(101, 101, ProccessState::BG, "sleep 6 &\n"), 2);
    assert_eq!(table.addjob(102, 102, ProccessState::BG, "sleep 7 &\n"), 3);
    assert!(table.delete_job(101).is_ok());
    assert_eq!(table.addjob(103, 103, ProccessState::BG, "sleep 8 &\n"), 4);
    assert!(table.delete_job(103).is_ok());
    assert!(table.delete_job(102).is_ok());
    assert_eq!(table.addjob(104, 104, ProccessState::BG, "sleep 9 &\n"), 2);
    assert_eq!(table.next_jid(), 3);
}

#[test]
fn jids_are_dense_while_only_the_newest_job_leaves() {
    let mut table = Jobs::new();
    for pid in 1..=5 {
        table.addjob(pid, pid, ProccessState::BG, "x");
    }
    assert!(table.delete_job(5).is_ok());
    assert!(table.delete_job(4).is_ok());
    table.addjob(6, 6, ProccessState::BG, "y");
    let jids: Vec<u32> = table.iter().map(|job| job.jid).collect();
    assert_eq!(jids, vec![1, 2, 3, 4]);
}

#[test]
fn removing_an_older_job_leaves_a_gap() {
    let mut table = Jobs::new();
    for pid in 1..=3 {
        table.addjob(pid, pid, ProccessState::BG, "x");
    }
    assert!(table.delete_job(2).is_ok());
    let jids: Vec<u32> = table.iter().map(|job| job.jid).collect();
    assert_eq!(jids, vec![1, 3]);
}

#[test]
fn new_table_is_empty() {
    let table = Jobs::new();
    assert_eq!(table.len(), 0);
    assert_eq!(table.next_jid(), 1);
    assert_eq!(table.iter().count(), 0);
    assert_eq!(table.to_string(), "");
}

#[test]
fn delete_of_unknown_pid_fails_and_changes_nothing() {
    let mut table = Jobs::new();
    table.addjob(7, 7, ProccessState::FG, "a\n");
    assert_eq!(table.delete_job(8), Err("Invalid PID"));
    assert_eq!(table.delete_job(0), Err("Invalid PID"));
    assert_eq!(table.delete_job(-7), Err("Invalid PID"));
    assert_eq!(table.len(), 1);
    assert_eq!(table.delete_job(7), Ok("Successfully removed job"));
    assert_eq!(table.len(), 0);
    assert_eq!(table.delete_job(7), Err("Invalid PID"));
}

#[test]
fn lookup_by_jid_searches_after_removals() {
    let mut table = Jobs::new();
    table.addjob(10, 10, ProccessState::BG, "a\n");
    table.addjob(20, 20, ProccessState::BG, "b\n");
    table.addjob(30, 30, ProccessState::BG, "c\n");
    table.delete_job(10).unwrap();
    assert_eq!(table.get_job_jid(3).map(|job| job.pid), Some(30));
    assert_eq!(table.get_job_jid(2).map(|job| job.pid), Some(20));
    assert!(table.get_job_jid(1).is_none());
    assert!(table.get_job_jid(0).is_none());
    assert!(table.get_job_jid(4).is_none());
}

#[test]
fn lookup_by_pid_hands_out_the_job_for_change() {
    let mut table = Jobs::new();
    table.addjob(10, 10, ProccessState::BG, "a\n");
    table.addjob(20, 20, ProccessState::BG, "b\n");
    table.get_job_pid(20).unwrap().state = ProccessState::ST;
    assert_eq!(table.job_by_pid(20).unwrap().state, ProccessState::ST);
    assert_eq!(table.job_by_pid(10).unwrap().state, ProccessState::BG);
    assert!(table.get_job_pid(30).is_none());
    assert!(table.job_by_pid(30).is_none());
}

#[test]
fn foreground_finds_the_foreground_job() {
    let mut table = Jobs::new();
    table.addjob(10, 10, ProccessState::BG, "a\n");
    assert!(table.foreground().is_none());
    table.addjob(20, 21, ProccessState::FG, "b\n");
    let job = table.foreground().unwrap();
    assert_eq!((job.pid, job.pgid, job.jid), (20, 21, 2));
}

#[test]
fn accepts_tells_when_a_job_can_be_added() {
    let mut table = Jobs::new();
    assert!(table.accepts(10, 10, ProccessState::FG));
    assert!(!table.accepts(0, 10, ProccessState::BG));
    assert!(!table.accepts(10, 0, ProccessState::BG));
    assert!(!table.accepts(-1, 10, ProccessState::BG));
    table.addjob(10, 10, ProccessState::FG, "a\n");
    assert!(!table.accepts(10, 10, ProccessState::BG));
    assert!(!table.accepts(11, 11, ProccessState::FG));
    assert!(table.accepts(11, 11, ProccessState::BG));
    assert!(table.accepts(11, 11, ProccessState::ST));
}

#[test]
fn job_new_keeps_its_arguments() {
    let job = Job::new(5, 6, 7, ProccessState::ST, "vim\n");
    assert_eq!((job.pid, job.pgid, job.jid, job.state), (5, 6, 7, ProccessState::ST));
    assert_eq!(job.cmdline, "vim\n");
}

#[test]
fn listing_shows_one_line_for_each_job() {
    let mut table = Jobs::new();
    table.addjob(4321, 4321, ProccessState::BG, "sleep 5 &\n");
    table.addjob(4400, 4400, ProccessState::ST, "vim notes");
    table.addjob(4500, 4500, ProccessState::FG, "cat\n");
    assert_eq!(
        table.to_string(),
        "[1] (4321) Running sleep 5 &\n[2] (4400) Stopped vim notes\n[3] (4500) Foreground cat\n"
    );
}

#[test]
fn job_text_has_jid_pid_state_and_command_line() {
    assert_eq!(Job::new(120, 120, 10, ProccessState::BG, "make -j4").to_string(), "[10] (120) Running make -j4");
    assert_eq!(Job::new(-3, 1, 0, ProccessState::FG, "").to_string(), "[0] (-3) Foreground ");
    assert_eq!(
        Job::new(i32::MIN, 1, u32::MAX, ProccessState::ST, "x").to_string(),
        "[4294967295] (-2147483648) Stopped x"
    );
}

#[test]
fn state_names() {
    assert_eq!(ProccessState::FG.to_string(), "FG");
    assert_eq!(ProccessState::BG.to_string(), "BG");
    assert_eq!(ProccessState::ST.to_string(), "ST");
}

#[test]
fn iter_mut_hands_out_every_job_for_change() {
    let mut table = Jobs::new();
    table.addjob(10, 10, ProccessState::BG, "a\n");
    table.addjob(20, 20, ProccessState::BG, "b\n");
    for job in table.iter_mut() {
        job.state = ProccessState::ST;
    }
    let states: Vec<ProccessState> = table.iter().map(|job| job.state).collect();
    assert_eq!(states, vec![ProccessState::ST, ProccessState::ST]);
    assert_eq!(table.len(), 2);
    assert_eq!(table.next_jid(), 3);
}

use herdr_beads::bead::Bead;
use herdr_beads::error::BdError;
use herdr_beads::model::Scope;
use herdr_beads::worker::{
    after_reply, after_wait, answer_to, current, reply_to, start, superseded, Done, Job, Next,
    Question, Reply, Work,
};

type Write = Box<dyn FnOnce() -> Result<String, String> + Send>;

fn some_bead() -> Bead {
    Bead {
        id: "a".to_string(),
        title: "t".to_string(),
        status: "open".to_string(),
        priority: 1,
        issue_type: "task".to_string(),
        assignee: None,
        labels: Vec::new(),
        dependencies: Vec::new(),
    }
}

#[test]
fn worker_skips_stale_loads_and_shows_but_never_writes() {
    let load = |gen| Job::Load { gen, scope: Scope::Repo, closed: false };
    let show = |id: &str| Job::Show { scope: Scope::Repo, id: id.into(), seq: 0 };
    let write = || -> Job<Write> { Job::Write(Box::new(|| Ok(String::new()))) };
    let batch = vec![load(1), show("a"), write(), load(2), show("b"), write(), show("c")];
    assert_eq!(
        superseded(&batch),
        [true, true, false, false, true, false, false],
        "the last load still follows the first write, so it sees it"
    );
}

#[test]
fn jobs_that_run_keep_their_order() {
    let load = |gen| Job::Load { gen, scope: Scope::Repo, closed: true };
    let batch: Vec<Job<u32>> = vec![
        load(1),
        Job::Write(10),
        Job::ReviewCmd { scope: Scope::Global },
        load(2),
        Job::Write(20),
        Job::ReviewCmd { scope: Scope::Repo },
    ];
    let names: Vec<String> = current(batch)
        .into_iter()
        .map(|j| match j {
            Job::Load { gen, .. } => format!("load {}", gen),
            Job::Show { id, .. } => format!("show {}", id),
            Job::ReviewCmd { scope } => format!("review {:?}", scope),
            Job::Write(w) => format!("write {}", w),
        })
        .collect();
    assert_eq!(names, ["write 10", "review Global", "load 2", "write 20", "review Repo"]);
    assert!(current(Vec::<Job<u32>>::new()).is_empty());
}

#[test]
fn replies_say_what_came_of_a_job() {
    let failed = || BdError::Failed { args: "show".to_string(), stderr: "gone".to_string() };
    match reply_to(Done::Load { gen: 7, beads: Ok(vec![some_bead()]) }) {
        Some(Reply::Loaded { gen, beads }) => assert!(gen == 7 && beads.unwrap().len() == 1),
        _ => panic!("no board"),
    }
    match reply_to(Done::Show { id: "a".to_string(), seq: 3, bead: Ok(Some(some_bead())) }) {
        Some(Reply::Shown { id, bead, seq }) => assert!(id == "a" && bead.id == "a" && seq == 3),
        _ => panic!("no issue"),
    }
    assert!(reply_to(Done::Show { id: "a".to_string(), seq: 3, bead: Ok(None) }).is_none());
    assert!(reply_to(Done::Show { id: "a".to_string(), seq: 3, bead: Err(failed()) }).is_none());
    match reply_to(Done::ReviewCmd(Err(failed()))) {
        Some(Reply::ReviewCmd(Err(message))) => assert_eq!(message, "bd show: gone"),
        _ => panic!("no message"),
    }
    match reply_to(Done::ReviewCmd(Ok(vec!["x".to_string()]))) {
        Some(Reply::ReviewCmd(Ok(words))) => assert_eq!(words, ["x"]),
        _ => panic!("no words"),
    }
    let other = BdError::Other { message: "no editor".to_string() };
    match reply_to(Done::Write(Err(other))) {
        Some(Reply::Wrote(Err(e))) => assert_eq!(e.message(), "no editor"),
        _ => panic!("no error"),
    }
    match reply_to(Done::Write(Ok("closed x".to_string()))) {
        Some(Reply::Wrote(Ok(message))) => assert_eq!(message, "closed x"),
        _ => panic!("no message"),
    }
}

#[test]
fn jobs_come_down_to_calls_and_their_answers() {
    let decode = |doc: &str| {
        if doc == "[a]" {
            Ok(vec![some_bead()])
        } else {
            Err("odd".to_string())
        }
    };
    let asked = |job: Job<u32>| match start(job) {
        Work::Ask { question, call } => (question, call),
        Work::Write(w) => panic!("write {}", w),
    };
    let (question, call) = asked(Job::Load { gen: 4, scope: Scope::Global, closed: true });
    assert_eq!(call.args, ["list", "--all", "--json"]);
    assert_eq!(call.scope, Scope::Global);
    assert!(matches!(question, Question::Load { gen: 4, closed: true }));
    match answer_to(question, Ok(" [a]\n".to_string()), decode) {
        Some(Reply::Loaded { gen: 4, beads: Ok(beads) }) => assert_eq!(beads[0].id, "a"),
        _ => panic!("no board"),
    }
    let (question, call) = asked(Job::Show { scope: Scope::Repo, id: "a".to_string(), seq: 9 });
    assert_eq!(call.args, ["show", "a", "--json"]);
    assert!(answer_to(question, Ok("[b]".to_string()), decode).is_none());
    let question = Question::Show { id: "a".to_string(), seq: 9 };
    match answer_to(question, Ok("[a]".to_string()), decode) {
        Some(Reply::Shown { id, bead, seq: 9 }) => assert!(id == "a" && bead.id == "a"),
        _ => panic!("no issue"),
    }
    let (question, call) = asked(Job::ReviewCmd { scope: Scope::Repo });
    assert_eq!(call.args[0], "config");
    match answer_to(question, Ok("{\"value\":\"a b\"}".to_string()), decode) {
        Some(Reply::ReviewCmd(Ok(words))) => assert_eq!(words, ["a", "b"]),
        _ => panic!("no words"),
    }
    assert!(matches!(start(Job::Write(5u32)), Work::Write(5)));
}

#[test]
fn the_worker_ends_with_its_queue_or_its_listener() {
    assert_eq!(after_wait(true), Next::GoOn);
    assert_eq!(after_wait(false), Next::End);
    assert_eq!(after_reply(None), Next::GoOn);
    assert_eq!(after_reply(Some(true)), Next::GoOn);
    assert_eq!(after_reply(Some(false)), Next::End);
}

#[test]
fn a_load_of_a_later_batch_follows_every_write() {
    let load = |gen| Job::Load { gen, scope: Scope::Repo, closed: false };
    let batches: Vec<Vec<Job<u32>>> = vec![
        vec![Job::Write(1), load(1), Job::Write(2)],
        vec![Job::Write(3)],
        vec![load(2), load(3)],
    ];
    let run: Vec<String> = batches
        .into_iter()
        .flat_map(current)
        .map(|j| match j {
            Job::Load { gen, .. } => format!("load {}", gen),
            Job::Write(w) => format!("write {}", w),
            _ => panic!("no such job"),
        })
        .collect();
    assert_eq!(run, ["write 1", "load 1", "write 2", "write 3", "load 3"]);
}

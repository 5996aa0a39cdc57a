use nova_shell::dispatch::{
    dispatch, partition, Batch, BatchAction, Foreground, ForegroundAction, JobRequest, Pipeline,
    Stage,
};

fn stage(program: &str) -> Stage {
    Stage { program: program.to_string(), arguments: Vec::new() }
}

fn pipeline(programs: &[&str], background: bool) -> Pipeline {
    Pipeline { stages: programs.iter().map(|program| stage(program)).collect(), background }
}

fn request(pipelines: Vec<Pipeline>) -> JobRequest {
    JobRequest { working_directory: "/home".to_string(), pipelines }
}

fn run_batch(batch: &mut Batch, outcomes: &[bool]) -> Vec<BatchAction> {
    let mut actions = vec![batch.action()];
    for outcome in outcomes {
        actions.push(batch.advance(*outcome));
    }
    actions
}

fn run_foreground(foreground: &mut Foreground, outcomes: &[bool]) -> Vec<ForegroundAction> {
    let mut actions = vec![foreground.action()];
    for outcome in outcomes {
        actions.push(foreground.advance(*outcome));
    }
    actions
}

#[test]
fn pipelines_are_parted_in_order() {
    let line = vec![
        pipeline(&["a"], false),
        pipeline(&["b"], true),
        pipeline(&["c"], false),
        pipeline(&["d"], true),
    ];
    let (foreground, background) = partition(line);
    assert_eq!(foreground, vec![pipeline(&["a"], false), pipeline(&["c"], false)]);
    assert_eq!(background, vec![pipeline(&["b"], true), pipeline(&["d"], true)]);
    assert!(background[0].backend());
    assert!(!foreground[0].backend());
}

#[test]
fn the_request_holds_the_directory_and_the_background() {
    let plan = dispatch(
        vec![pipeline(&["sleep"], true), pipeline(&["ls"], false)],
        "/tmp".to_string(),
    );
    assert_eq!(
        plan.request,
        JobRequest { working_directory: "/tmp".to_string(), pipelines: vec![pipeline(&["sleep"], true)] }
    );
    assert_eq!(plan.foreground.action(), ForegroundAction::SendRequest);
    assert_eq!(plan.foreground.stage(0, 0), Some(&stage("ls")));
    assert_eq!(plan.foreground.stage(1, 0), None);
    let only_foreground = dispatch(vec![pipeline(&["ls"], false)], "/".to_string());
    assert_eq!(only_foreground.request.pipelines, Vec::<Pipeline>::new());
}

#[test]
fn the_first_pipeline_is_spawned_before_the_second() {
    let mut batch = Batch::new(request(vec![
        pipeline(&["a1", "a2"], true),
        pipeline(&["b1"], true),
    ]));
    assert_eq!(batch.working_directory(), "/home");
    assert_eq!(
        run_batch(&mut batch, &[true, true, true, true, true]),
        vec![
            BatchAction::ChangeDirectory,
            BatchAction::Spawn { pipeline: 0, stage: 0 },
            BatchAction::Spawn { pipeline: 0, stage: 1 },
            BatchAction::Spawn { pipeline: 1, stage: 0 },
            BatchAction::Finished,
            BatchAction::Finished,
        ]
    );
    assert_eq!(batch.stage(0, 1), Some(&stage("a2")));
    assert_eq!(batch.stage(1, 1), None);
    assert_eq!(batch.stage(2, 0), None);
}

#[test]
fn a_directory_that_cannot_be_entered_ends_the_request() {
    let mut batch = Batch::new(request(vec![pipeline(&["a"], true)]));
    assert_eq!(
        run_batch(&mut batch, &[false, true]),
        vec![BatchAction::ChangeDirectory, BatchAction::Finished, BatchAction::Finished]
    );
}

#[test]
fn a_stage_that_cannot_be_spawned_ends_its_pipeline_only() {
    let mut batch = Batch::new(request(vec![
        pipeline(&["a1", "a2", "a3"], true),
        pipeline(&[], true),
        pipeline(&["c1", "c2"], true),
    ]));
    assert_eq!(
        run_batch(&mut batch, &[true, true, false, true, false]),
        vec![
            BatchAction::ChangeDirectory,
            BatchAction::Spawn { pipeline: 0, stage: 0 },
            BatchAction::Spawn { pipeline: 0, stage: 1 },
            BatchAction::Spawn { pipeline: 2, stage: 0 },
            BatchAction::Spawn { pipeline: 2, stage: 1 },
            BatchAction::Finished,
        ]
    );
}

#[test]
fn an_empty_request_is_finished_at_once() {
    let mut batch = Batch::new(request(Vec::new()));
    assert_eq!(
        run_batch(&mut batch, &[true]),
        vec![BatchAction::ChangeDirectory, BatchAction::Finished]
    );
}

#[test]
fn the_session_waits_for_every_child_before_it_reads_on() {
    let mut foreground = Foreground::new(vec![pipeline(&["cat", "wc"], false)]);
    assert_eq!(
        run_foreground(&mut foreground, &[false, true, true, true, true, true, true, true]),
        vec![
            ForegroundAction::SendRequest,
            ForegroundAction::DisableRawMode,
            ForegroundAction::Spawn { pipeline: 0, stage: 0 },
            ForegroundAction::Spawn { pipeline: 0, stage: 1 },
            ForegroundAction::Wait { pipeline: 0 },
            ForegroundAction::Wait { pipeline: 0 },
            ForegroundAction::EnableRawMode,
            ForegroundAction::Resume,
            ForegroundAction::Resume,
        ]
    );
    assert_eq!(foreground.outstanding(), 0);
}

#[test]
fn each_pipeline_ends_before_the_next_begins() {
    let mut foreground = Foreground::new(vec![
        pipeline(&["a1", "a2"], false),
        pipeline(&[], false),
        pipeline(&["c1"], false),
    ]);
    assert_eq!(
        run_foreground(&mut foreground, &[false, true, true, false, false, true, true, false, true]),
        vec![
            ForegroundAction::SendRequest,
            ForegroundAction::DisableRawMode,
            ForegroundAction::Spawn { pipeline: 0, stage: 0 },
            ForegroundAction::Spawn { pipeline: 0, stage: 1 },
            ForegroundAction::Wait { pipeline: 0 },
            ForegroundAction::Spawn { pipeline: 2, stage: 0 },
            ForegroundAction::Wait { pipeline: 2 },
            ForegroundAction::EnableRawMode,
            ForegroundAction::Abort,
            ForegroundAction::Abort,
        ]
    );
}

#[test]
fn a_pipeline_whose_first_stage_fails_has_nothing_to_wait_for() {
    let mut foreground = Foreground::new(vec![pipeline(&["nope"], false), pipeline(&["ls"], false)]);
    assert_eq!(
        run_foreground(&mut foreground, &[false, true, false, true, true, true]),
        vec![
            ForegroundAction::SendRequest,
            ForegroundAction::DisableRawMode,
            ForegroundAction::Spawn { pipeline: 0, stage: 0 },
            ForegroundAction::Spawn { pipeline: 1, stage: 0 },
            ForegroundAction::Wait { pipeline: 1 },
            ForegroundAction::EnableRawMode,
            ForegroundAction::Resume,
        ]
    );
}

#[test]
fn without_foreground_pipelines_raw_mode_is_toggled_and_reading_goes_on() {
    let mut foreground = Foreground::new(Vec::new());
    assert_eq!(
        run_foreground(&mut foreground, &[false, true, true]),
        vec![
            ForegroundAction::SendRequest,
            ForegroundAction::DisableRawMode,
            ForegroundAction::EnableRawMode,
            ForegroundAction::Resume,
        ]
    );
    let mut stuck = Foreground::new(vec![pipeline(&["ls"], false)]);
    assert_eq!(
        run_foreground(&mut stuck, &[false, false, true]),
        vec![
            ForegroundAction::SendRequest,
            ForegroundAction::DisableRawMode,
            ForegroundAction::Abort,
            ForegroundAction::Abort,
        ]
    );
}

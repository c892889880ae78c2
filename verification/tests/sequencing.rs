use colproj::pipeline::pipeline_step;
use colproj::pipeline::PipelineAction;
use colproj::pipeline::PipelineEvent;
use colproj::pipeline::PipelineState;

#[test]
fn init_enters_streaming_once_resolved() {
    assert_eq!(
        pipeline_step(PipelineState::Init, PipelineEvent::Resolved),
        (PipelineState::Streaming, PipelineAction::Proceed)
    );
}

#[test]
fn streaming_loops_one_record_per_step() {
    assert_eq!(
        pipeline_step(PipelineState::Streaming, PipelineEvent::RecordDone),
        (PipelineState::Streaming, PipelineAction::Proceed)
    );
}

#[test]
fn clean_end_of_stream_flushes_once_and_finishes() {
    assert_eq!(
        pipeline_step(PipelineState::Streaming, PipelineEvent::EndOfStream),
        (PipelineState::Done, PipelineAction::Flush)
    );
}

#[test]
fn error_fails_the_run_from_any_state() {
    for state in [
        PipelineState::Init,
        PipelineState::Streaming,
        PipelineState::Done,
        PipelineState::Failed,
    ] {
        assert_eq!(
            pipeline_step(state, PipelineEvent::ErrorRaised),
            (PipelineState::Failed, PipelineAction::Abort)
        );
    }
}

#[test]
fn unexpected_events_fail_rather_than_stream_on() {
    assert_eq!(
        pipeline_step(PipelineState::Init, PipelineEvent::RecordDone),
        (PipelineState::Failed, PipelineAction::Abort)
    );
    assert_eq!(
        pipeline_step(PipelineState::Done, PipelineEvent::RecordDone),
        (PipelineState::Failed, PipelineAction::Abort)
    );
}

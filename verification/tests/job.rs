use stickercord::job::{
    after_encode, body_event, start, step, url_event, JobAction, JobError, JobEvent, JobState,
};
use stickercord::transcode::{DecodeError, EncodeError, PixelBuffer};

fn red_image() -> JobEvent {
    let mut pixels = Vec::new();
    for _ in 0..4 {
        pixels.extend_from_slice(&[255, 0, 0, 255]);
    }
    JobEvent::Image { pixels, width: 2, height: 2 }
}

fn all_events() -> Vec<JobEvent> {
    vec![
        JobEvent::Start,
        JobEvent::Url(String::from("https://example.org/file")),
        JobEvent::Body(vec![1, 2, 3]),
        red_image(),
        JobEvent::Stored,
        JobEvent::Failure,
    ]
}

#[test]
fn job_starts_by_resolving() {
    let (state, action) = start();
    assert_eq!(state, JobState::Resolving);
    assert!(matches!(action, JobAction::ResolveUrl));
    let (state, action) = step(JobState::Idle, JobEvent::Start);
    assert_eq!(state, JobState::Resolving);
    assert!(matches!(action, JobAction::ResolveUrl));
}

#[test]
fn job_runs_through_its_stages() {
    let (state, _) = start();
    let (state, action) = step(state, JobEvent::Url(String::from("https://example.org/f")));
    assert_eq!(state, JobState::Fetching);
    match action {
        JobAction::Fetch(url) => assert_eq!(url, "https://example.org/f"),
        other => panic!("unexpected action {:?}", other),
    }
    let (state, action) = step(state, JobEvent::Body(vec![9, 8, 7]));
    assert_eq!(state, JobState::Decoding);
    match action {
        JobAction::Decode(bytes) => assert_eq!(bytes, vec![9, 8, 7]),
        other => panic!("unexpected action {:?}", other),
    }
    let (state, action) = step(state, red_image());
    assert_eq!(state, JobState::Encoding);
    let expected = PixelBuffer::new(vec![255, 0, 0, 255].repeat(4), 2, 2).unwrap().encode().unwrap();
    match action {
        JobAction::Write(bytes) => assert_eq!(bytes, expected),
        other => panic!("unexpected action {:?}", other),
    }
    let (state, action) = step(state, JobEvent::Stored);
    assert_eq!(state, JobState::Committed);
    assert!(matches!(action, JobAction::Release));
    assert!(state.terminal());
}

#[test]
fn failure_in_each_stage_discards_and_releases() {
    let stages = [
        (JobState::Resolving, JobError::Resolution),
        (JobState::Fetching, JobError::Network),
        (JobState::Decoding, JobError::Decode(DecodeError::Malformed)),
        (JobState::Encoding, JobError::Encode(EncodeError::Sink)),
    ];
    for (state, error) in stages {
        let (next, action) = step(state, JobEvent::Failure);
        assert_eq!(next, JobState::Failed(error));
        assert!(matches!(action, JobAction::Discard));
        assert!(next.terminal());
    }
}

#[test]
fn misshapen_image_fails_the_job() {
    let (state, action) =
        step(JobState::Decoding, JobEvent::Image { pixels: vec![0; 15], width: 2, height: 2 });
    assert_eq!(state, JobState::Failed(JobError::Decode(DecodeError::WrongLength)));
    assert!(matches!(action, JobAction::Discard));
    let (state, action) =
        step(JobState::Decoding, JobEvent::Image { pixels: Vec::new(), width: 0, height: 0 });
    assert_eq!(state, JobState::Failed(JobError::Decode(DecodeError::EmptyImage)));
    assert!(matches!(action, JobAction::Discard));
}

#[test]
fn event_out_of_place_fails_the_stage() {
    let (state, action) = step(JobState::Resolving, JobEvent::Body(vec![1]));
    assert_eq!(state, JobState::Failed(JobError::Resolution));
    assert!(matches!(action, JobAction::Discard));
    let (state, action) = step(JobState::Fetching, JobEvent::Stored);
    assert_eq!(state, JobState::Failed(JobError::Network));
    assert!(matches!(action, JobAction::Discard));
    let (state, _) = step(JobState::Encoding, JobEvent::Start);
    assert_eq!(state, JobState::Failed(JobError::Encode(EncodeError::Sink)));
}

#[test]
fn ended_job_ignores_everything() {
    for event in all_events() {
        let (state, action) = step(JobState::Committed, event);
        assert_eq!(state, JobState::Committed);
        assert!(matches!(action, JobAction::Nothing));
    }
    for event in all_events() {
        let (state, action) = step(JobState::Failed(JobError::Network), event);
        assert_eq!(state, JobState::Failed(JobError::Network));
        assert!(matches!(action, JobAction::Nothing));
    }
}

#[test]
fn idle_job_waits_for_its_start() {
    let (state, action) = step(JobState::Idle, JobEvent::Failure);
    assert_eq!(state, JobState::Idle);
    assert!(matches!(action, JobAction::Nothing));
    assert!(!state.terminal());
}

#[test]
fn every_job_ends_within_four_events() {
    for first in 0..6 {
        for second in 0..6 {
            for third in 0..6 {
                for fourth in 0..6 {
                    let (mut state, _) = start();
                    let mut releases = 0;
                    for pick in [first, second, third, fourth] {
                        let event = all_events().swap_remove(pick);
                        let (next, action) = step(state, event);
                        if matches!(action, JobAction::Release | JobAction::Discard) {
                            releases += 1;
                        }
                        state = next;
                    }
                    assert!(state.terminal());
                    assert_eq!(releases, 1);
                }
            }
        }
    }
}

#[test]
fn url_event_of_a_denied_reference_is_a_failure() {
    assert!(matches!(url_event(None), JobEvent::Failure));
    match url_event(Some(String::from("https://example.org/x"))) {
        JobEvent::Url(url) => assert_eq!(url, "https://example.org/x"),
        other => panic!("unexpected event {:?}", other),
    }
}

#[test]
fn body_event_goes_by_the_status() {
    for status in [200u16, 204, 299] {
        match body_event(status, vec![1, 2]) {
            JobEvent::Body(bytes) => assert_eq!(bytes, vec![1, 2]),
            other => panic!("unexpected event {:?}", other),
        }
    }
    for status in [0u16, 199, 300, 404, 500, u16::MAX] {
        assert!(matches!(body_event(status, vec![1, 2]), JobEvent::Failure));
    }
}

#[test]
fn refused_image_fails_the_job() {
    let (state, action) = after_encode(Err(EncodeError::Encoder));
    assert_eq!(state, JobState::Failed(JobError::Encode(EncodeError::Encoder)));
    assert!(matches!(action, JobAction::Discard));
    let (state, action) = after_encode(Ok(vec![1, 2, 3]));
    assert_eq!(state, JobState::Encoding);
    match action {
        JobAction::Write(bytes) => assert_eq!(bytes, vec![1, 2, 3]),
        other => panic!("unexpected action {:?}", other),
    }
}

#[test]
fn well_shaped_image_is_always_written() {
    for (width, height) in [(1u32, 1u32), (2, 3), (16, 1), (1, 16)] {
        let pixels = vec![9u8; (4 * width * height) as usize];
        let expected = PixelBuffer::new(pixels.clone(), width, height).unwrap().encode().unwrap();
        let (state, action) = step(JobState::Decoding, JobEvent::Image { pixels, width, height });
        assert_eq!(state, JobState::Encoding);
        match action {
            JobAction::Write(bytes) => assert_eq!(bytes, expected),
            other => panic!("unexpected action {:?}", other),
        }
    }
}

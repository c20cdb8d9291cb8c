use stickercord::cache::{AlreadyClaimed, Cache};
use stickercord::job::{step, JobAction, JobEvent, JobState};

fn decode_png(bytes: &[u8]) -> (Vec<u8>, u32, u32) {
    let image = image::load_from_memory_with_format(bytes, image::ImageFormat::PNG)
        .expect("a container that decodes")
        .to_rgba();
    let (width, height) = image.dimensions();
    (image.into_raw(), width, height)
}

#[test]
fn unknown_sticker_needs_no_wait() {
    let cache: Cache<u32> = Cache::new();
    let (path, signal) = cache.get_sticker("abc");
    assert_eq!(path, "./cache/abc.png");
    assert_eq!(signal, None);
}

#[test]
fn claimed_sticker_is_in_flight_until_finished() {
    let mut cache: Cache<u32> = Cache::new();
    let job = cache.cache_sticker("abc", true, 7).expect("the file was created");
    assert_eq!(job.0, JobState::Resolving);
    assert!(matches!(job.1, JobAction::ResolveUrl));
    assert_eq!(cache.get_sticker("abc").1, Some(&7));
    assert_eq!(cache.get_sticker("abd").1, None);
    assert_eq!(cache.finish("abc"), Some(7));
    assert_eq!(cache.get_sticker("abc").1, None);
    assert_eq!(cache.finish("abc"), None);
}

#[test]
fn second_claim_is_a_no_op() {
    let mut cache: Cache<u32> = Cache::new();
    assert!(cache.cache_sticker("xyz", true, 1).is_ok());
    assert_eq!(cache.cache_sticker("xyz", false, 2).err(), Some(AlreadyClaimed));
    assert_eq!(cache.get_sticker("xyz").1, Some(&1));
    assert_eq!(cache.finish("xyz"), Some(1));
    assert_eq!(cache.cache_sticker("xyz", false, 3).err(), Some(AlreadyClaimed));
    assert_eq!(cache.get_sticker("xyz").1, None);
}

#[test]
fn entry_is_kept_when_claimed_again() {
    let mut cache: Cache<u32> = Cache::new();
    assert!(cache.cache_sticker("xyz", true, 1).is_ok());
    assert!(cache.cache_sticker("xyz", true, 2).is_ok());
    assert_eq!(cache.get_sticker("xyz").1, Some(&1));
    assert_eq!(cache.finish("xyz"), Some(1));
    assert_eq!(cache.finish("xyz"), None);
}

#[test]
fn stickers_do_not_disturb_each_other() {
    let mut cache: Cache<&str> = Cache::new();
    assert!(cache.cache_sticker("a", true, "first").is_ok());
    assert!(cache.cache_sticker("b", true, "second").is_ok());
    assert!(cache.cache_sticker("c", true, "third").is_ok());
    assert_eq!(cache.finish("b"), Some("second"));
    assert_eq!(cache.get_sticker("a").1, Some(&"first"));
    assert_eq!(cache.get_sticker("b").1, None);
    assert_eq!(cache.get_sticker("c").1, Some(&"third"));
}

/// A store of files and the registry, driven as a scheduler would drive them.
struct Fixture {
    cache: Cache<u32>,
    files: std::collections::BTreeMap<String, Vec<u8>>,
    fetches: u32,
}

impl Fixture {
    fn new() -> Self {
        Fixture { cache: Cache::new(), files: std::collections::BTreeMap::new(), fetches: 0 }
    }

    fn populate(&mut self, id: &str) -> Option<JobState> {
        let path = self.cache.get_sticker(id).0;
        let created = !self.files.contains_key(&path);
        if created {
            self.files.insert(path, Vec::new());
        }
        self.cache.cache_sticker(id, created, 0).ok().map(|job| job.0)
    }

    fn run(&mut self, id: &str, mut state: JobState, events: Vec<JobEvent>) -> JobState {
        let path = self.cache.get_sticker(id).0;
        for event in events {
            let (next, action) = step(state, event);
            match action {
                JobAction::Fetch(_) => self.fetches += 1,
                JobAction::Write(bytes) => {
                    self.files.insert(path.clone(), bytes);
                },
                JobAction::Release => {
                    self.cache.finish(id);
                },
                JobAction::Discard => {
                    self.files.remove(&path);
                    self.cache.finish(id);
                },
                _ => {},
            }
            state = next;
        }
        state
    }
}

fn successful_run() -> Vec<JobEvent> {
    vec![
        JobEvent::Url(String::from("https://example.org/f")),
        JobEvent::Body(vec![82, 73, 70, 70]),
        JobEvent::Image { pixels: [255u8, 0, 0, 255].repeat(4), width: 2, height: 2 },
        JobEvent::Stored,
    ]
}

#[test]
fn populated_sticker_decodes_to_solid_red() {
    let mut fixture = Fixture::new();
    let state = fixture.populate("abc").expect("the first request claims the file");
    assert!(fixture.cache.get_sticker("abc").1.is_some());
    let state = fixture.run("abc", state, successful_run());
    assert_eq!(state, JobState::Committed);
    let (path, signal) = fixture.cache.get_sticker("abc");
    assert_eq!(signal, None);
    let (pixels, width, height) = decode_png(&fixture.files[&path]);
    assert_eq!((width, height), (2, 2));
    assert_eq!(pixels.len(), 16);
    for pixel in pixels.chunks(4) {
        assert_eq!(pixel, &[255, 0, 0, 255]);
    }
}

#[test]
fn two_requests_fetch_once() {
    let mut fixture = Fixture::new();
    let first = fixture.populate("xyz");
    let second = fixture.populate("xyz");
    assert_eq!(first, Some(JobState::Resolving));
    assert_eq!(second, None);
    assert!(fixture.cache.get_sticker("xyz").1.is_some());
    fixture.run("xyz", first.unwrap(), successful_run());
    assert_eq!(fixture.fetches, 1);
    assert_eq!(fixture.cache.get_sticker("xyz").1, None);
    assert_eq!(fixture.populate("xyz"), None);
    assert_eq!(fixture.fetches, 1);
}

#[test]
fn many_requests_start_one_job() {
    let mut fixture = Fixture::new();
    let mut started = 0;
    for _ in 0..25 {
        if fixture.populate("many").is_some() {
            started += 1;
        }
    }
    assert_eq!(started, 1);
}

#[test]
fn failed_job_leaves_no_file_and_no_entry() {
    for fail_at in 0..4 {
        let mut fixture = Fixture::new();
        let state = fixture.populate("gone").unwrap();
        let mut events = successful_run();
        events.truncate(fail_at);
        events.push(JobEvent::Failure);
        let state = fixture.run("gone", state, events);
        assert!(matches!(state, JobState::Failed(_)));
        let (path, signal) = fixture.cache.get_sticker("gone");
        assert_eq!(signal, None);
        assert!(!fixture.files.contains_key(&path));
    }
}

#[test]
fn file_is_whole_whenever_nobody_waits() {
    let mut fixture = Fixture::new();
    let mut state = fixture.populate("whole").unwrap();
    let expected = stickercord::transcode::PixelBuffer::new([255u8, 0, 0, 255].repeat(4), 2, 2)
        .unwrap()
        .encode()
        .unwrap();
    for event in successful_run() {
        let (path, signal) = fixture.cache.get_sticker("whole");
        assert!(signal.is_some());
        assert_ne!(fixture.files.get(&path), None);
        state = fixture.run("whole", state, vec![event]);
    }
    let (path, signal) = fixture.cache.get_sticker("whole");
    assert_eq!(signal, None);
    assert_eq!(fixture.files[&path], expected);
}

#[test]
fn never_populated_sticker_has_no_file() {
    let mut fixture = Fixture::new();
    let state = fixture.populate("other").unwrap();
    fixture.run("other", state, successful_run());
    let (path, signal) = fixture.cache.get_sticker("never");
    assert_eq!(path, "./cache/never.png");
    assert_eq!(signal, None);
    assert!(!fixture.files.contains_key(&path));
}

use gpu_buffers::allocator::dmabuf::buffer::Dmabuf;
use gpu_buffers::allocator::dmabuf::registry::DmabufRegistry;
use gpu_buffers::allocator::dmabuf::source::{
    conclude, poll_direction, AlreadyReady, BlockerState, DmabufSource, Interest, PolledPlane,
    PollDirection, PostAction, Progress, Registration, Subsource,
};
use gpu_buffers::allocator::flags::DmabufFlags;
use gpu_buffers::allocator::format::{Fourcc, Modifier, Size};

const READ: Interest = Interest { readable: true, writable: false };
const WRITE: Interest = Interest { readable: false, writable: true };
const BOTH: Interest = Interest { readable: true, writable: true };
const NONE: Interest = Interest { readable: false, writable: false };
const REMOVE: Option<PostAction> = Some(PostAction::Remove);
const CONTINUE: Option<PostAction> = Some(PostAction::Continue);

fn polled(outcomes: &[Option<usize>]) -> Vec<PolledPlane<usize>> {
    let mut planes = Vec::new();
    for (source, ready) in outcomes.iter().enumerate() {
        planes.push(PolledPlane { ready: *ready, source });
    }
    planes
}

fn source(outcomes: &[Option<usize>]) -> DmabufSource<&'static str, usize> {
    match DmabufSource::new("buffer", READ, polled(outcomes)) {
        Ok(source) => source,
        Err(_) => panic!("ready"),
    }
}

#[test]
fn writing_is_polled_for_first() {
    assert_eq!(poll_direction(READ), Some(PollDirection::In));
    assert_eq!(poll_direction(WRITE), Some(PollDirection::Out));
    assert_eq!(poll_direction(BOTH), Some(PollDirection::Out));
    assert_eq!(poll_direction(NONE), None);
}

#[test]
fn a_ready_buffer_is_not_watched() {
    let ready = DmabufSource::new("buffer", READ, polled(&[Some(1), Some(1)]));
    assert!(matches!(ready, Err((AlreadyReady, "buffer"))));
    let nothing = DmabufSource::new("buffer", NONE, polled(&[Some(0)]));
    assert!(matches!(nothing, Err((AlreadyReady, "buffer"))));
}

#[test]
fn planes_that_are_not_ready_are_watched() {
    let mut source = source(&[Some(0), Some(1), None, Some(2)]);
    let waiting: Vec<bool> = (0..4).map(|idx| source.is_waiting(idx)).collect();
    assert_eq!(waiting, vec![true, false, true, true]);
    assert_eq!(source.source_mut(2), Some(&mut 2));
    assert_eq!(source.source_mut(1), None);
    assert_eq!(
        source.register(),
        vec![
            (0, Registration::Register),
            (2, Registration::Register),
            (3, Registration::Register)
        ]
    );
    *source.dmabuf_mut() = "other";
    let (watched, source) = source.exchange(7);
    assert_eq!(watched, "other");
    assert_eq!(source.register().len(), 3);
    assert_eq!(source.into_dmabuf(), 7);
}

#[test]
fn a_source_fires_once_all_planes_are_ready() {
    let mut source = source(&[Some(0), Some(0)]);
    let mut blocker = source.blocker();
    assert_eq!(blocker.state(), BlockerState::Pending);
    let progress = source.process_events(&vec![CONTINUE, REMOVE, REMOVE, REMOVE], &mut blocker);
    assert_eq!(progress, Progress::Waiting);
    assert_eq!(blocker.state(), BlockerState::Pending);
    assert_eq!(source.blocker().state(), BlockerState::Pending);
    assert_eq!(
        source.reregister(),
        vec![(0, Registration::Reregister), (1, Registration::Discard)]
    );
    assert_eq!(
        source.unregister(),
        vec![(0, Registration::Unregister), (1, Registration::Discard)]
    );
    let progress = source.process_events(&vec![None, REMOVE, CONTINUE, CONTINUE], &mut blocker);
    assert_eq!(progress, Progress::Waiting);
    let progress = source.process_events(&vec![REMOVE, CONTINUE, CONTINUE, None], &mut blocker);
    assert_eq!(progress, Progress::Ready);
    assert_eq!(blocker.state(), BlockerState::Released);
    assert_eq!(source.blocker().state(), BlockerState::Released);
    assert_eq!(source.register(), vec![]);
    let progress = source.process_events(&vec![None, None, None, None], &mut blocker);
    assert_eq!(progress, Progress::Ready);
    assert_eq!(blocker.state(), BlockerState::Released);
}

#[test]
fn the_callback_decides_how_a_source_ends() {
    assert_eq!(conclude::<&str>(Progress::Waiting, Ok(())), Ok(PostAction::Reregister));
    assert_eq!(conclude::<&str>(Progress::Ready, Ok(())), Ok(PostAction::Remove));
    assert_eq!(conclude(Progress::Ready, Err("failed")), Err("failed"));
}

#[test]
fn a_plane_becomes_ready_once() {
    let mut plane = Subsource::Active(7);
    plane.done();
    assert!(matches!(plane, Subsource::Done(7)));
    plane.done();
    assert!(matches!(plane, Subsource::Done(7)));
    let mut empty: Subsource<u8> = Subsource::Empty;
    empty.done();
    assert!(matches!(empty, Subsource::Empty));
}

#[test]
fn a_blocker_holds_a_reference_to_the_buffer() {
    let mut registry = DmabufRegistry::new(false);
    let mut builder = Dmabuf::builder(
        Size { w: 8, h: 8 },
        Fourcc { code: 1 },
        Modifier::linear(),
        DmabufFlags { bits: 0 },
    );
    builder.add_plane(3u32, 0, 32);
    let dmabuf = builder.build(&mut registry).unwrap();
    let ready = dmabuf.generate_blocker(&mut registry, READ, polled(&[Some(1)]));
    assert!(matches!(ready, Err(AlreadyReady)));
    assert_eq!(dmabuf.debug_strong_count(&registry), 1);
    let nothing = dmabuf.generate_blocker(&mut registry, NONE, polled(&[]));
    assert!(matches!(nothing, Err(AlreadyReady)));
    let (blocker, source) =
        match dmabuf.generate_blocker(&mut registry, READ, polled(&[Some(0)])) {
            Ok(generated) => generated,
            Err(_) => panic!("ready"),
        };
    assert_eq!(blocker.state(), BlockerState::Pending);
    assert_eq!(dmabuf.debug_strong_count(&registry), 2);
    source.into_dmabuf().release(&mut registry);
    assert_eq!(dmabuf.debug_strong_count(&registry), 1);
}

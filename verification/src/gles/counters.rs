//! Lifecycle counters of GPU objects.
//!
//! Memory that the driver owns is invisible to a heap profiler. A class of
//! objects that is created more often than it is destroyed shows up here. Each
//! class has a pair of counters, and every kind of cleanup request is counted
//! when it is sent, when it is carried out, and when it is discarded: the
//! outstanding ones are `queued - drained - discarded`. That a request was
//! discarded does not prove that its object was deleted.

use crate::backtrace;
use crate::gles::queue::Accounting;
use crate::gles::queue_tracker::{QueueModel, QueueSnapshot, QueueTracker};
use std::backtrace::Backtrace;
use std::collections::HashMap;
use std::sync::Arc;
use vstd::prelude::*;

verus! {

/// The lifecycle counters. All of them are totals that only grow.
#[derive(Clone, Copy, Debug, PartialEq, Eq, Structural)]
pub struct VramCounters {
    /// GL texture names allocated.
    pub textures_created: u64,
    /// GL texture names freed by a cleanup.
    pub textures_destroyed: u64,
    /// `EGLImage` handles created.
    pub egl_images_created: u64,
    /// `EGLImage` handles destroyed.
    pub egl_images_destroyed: u64,
    /// GL renderbuffer names allocated.
    pub renderbuffers_created: u64,
    /// GL renderbuffer names freed.
    pub renderbuffers_destroyed: u64,
    /// GL buffer object names allocated.
    pub buffers_created: u64,
    /// GL buffer object names freed.
    pub buffers_destroyed: u64,
    /// GL framebuffer object names allocated.
    pub framebuffers_created: u64,
    /// GL framebuffer object names freed.
    pub framebuffers_destroyed: u64,
    /// Texture cleanup requests sent, with those that a retired queue rejected.
    pub queued_texture: u64,
    /// Framebuffer cleanup requests sent, with those that a retired queue rejected.
    pub queued_framebuffer: u64,
    /// Renderbuffer cleanup requests sent, with those that a retired queue rejected.
    pub queued_renderbuffer: u64,
    /// EGLImage cleanup requests sent, with those that a retired queue rejected.
    pub queued_egl_image: u64,
    /// Mapping cleanup requests sent, with those that a retired queue rejected.
    pub queued_mapping: u64,
    /// Program cleanup requests sent, with those that a retired queue rejected.
    pub queued_program: u64,
    /// Sync cleanup requests sent, with those that a retired queue rejected.
    pub queued_sync: u64,
    /// Texture cleanup requests received and carried out.
    pub drained_texture: u64,
    /// Framebuffer cleanup requests received and carried out.
    pub drained_framebuffer: u64,
    /// Renderbuffer cleanup requests received and carried out.
    pub drained_renderbuffer: u64,
    /// EGLImage cleanup requests received and carried out.
    pub drained_egl_image: u64,
    /// Mapping cleanup requests received and carried out.
    pub drained_mapping: u64,
    /// Program cleanup requests received and carried out.
    pub drained_program: u64,
    /// Sync cleanup requests received and carried out.
    pub drained_sync: u64,
    /// Texture cleanup requests dropped without explicit deletion.
    pub discarded_texture: u64,
    /// Framebuffer cleanup requests dropped without explicit deletion.
    pub discarded_framebuffer: u64,
    /// Renderbuffer cleanup requests dropped without explicit deletion.
    pub discarded_renderbuffer: u64,
    /// EGLImage cleanup requests dropped without explicit deletion.
    pub discarded_egl_image: u64,
    /// Mapping cleanup requests dropped without explicit deletion.
    pub discarded_mapping: u64,
    /// Program cleanup requests dropped without explicit deletion.
    pub discarded_program: u64,
    /// Sync cleanup requests dropped without explicit deletion.
    pub discarded_sync: u64,
    /// `EGLImage` handles freed because binding them failed on import.
    pub egl_images_freed_on_import_error: u64,
}

/// A kind of resource whose cleanup is deferred.
#[derive(Clone, Copy, Debug, PartialEq, Eq, Structural)]
pub enum ResourceClass {
    /// GL textures.
    Texture,
    /// GL framebuffer objects.
    Framebuffer,
    /// GL renderbuffers.
    Renderbuffer,
    /// `EGLImage` handles.
    EglImage,
    /// Mapped GL buffer objects.
    Mapping,
    /// GL programs.
    Program,
    /// GL sync objects.
    Sync,
}

/// A resource that is to be cleaned up. GL objects are told by their names, all
/// else by its address.
#[derive(Clone, Copy, Debug, PartialEq, Eq, Structural)]
pub enum CleanupResource {
    /// A GL texture.
    Texture(u32),
    /// A GL framebuffer object.
    FramebufferObject(u32),
    /// A GL renderbuffer.
    RenderbufferObject(u32),
    /// An `EGLImage` handle.
    EGLImage(usize),
    /// A GL buffer object and where it is mapped.
    Mapping(u32, usize),
    /// A GL program.
    Program(u32),
    /// A GL sync object.
    Sync(usize),
}

impl CleanupResource {
    /// The kind of the resource.
    pub open spec fn class(self) -> ResourceClass {
        match self {
            CleanupResource::Texture(_) => ResourceClass::Texture,
            CleanupResource::FramebufferObject(_) => ResourceClass::Framebuffer,
            CleanupResource::RenderbufferObject(_) => ResourceClass::Renderbuffer,
            CleanupResource::EGLImage(_) => ResourceClass::EglImage,
            CleanupResource::Mapping(_, _) => ResourceClass::Mapping,
            CleanupResource::Program(_) => ResourceClass::Program,
            CleanupResource::Sync(_) => ResourceClass::Sync,
        }
    }
}

/// What is counted of the objects themselves.
pub enum ObjectCounter {
    /// GL textures allocated.
    TexturesCreated,
    /// GL textures freed.
    TexturesDestroyed,
    /// `EGLImage` handles created.
    EglImagesCreated,
    /// `EGLImage` handles destroyed.
    EglImagesDestroyed,
    /// `EGLImage` handles freed because binding them failed on import.
    EglImagesFreedOnImportError,
    /// GL renderbuffers allocated.
    RenderbuffersCreated,
    /// GL renderbuffers freed.
    RenderbuffersDestroyed,
    /// GL buffer objects allocated.
    BuffersCreated,
    /// GL buffer objects freed.
    BuffersDestroyed,
    /// GL framebuffer objects allocated.
    FramebuffersCreated,
    /// GL framebuffer objects freed.
    FramebuffersDestroyed,
}

/// One of the lifecycle counters.
pub enum Counter {
    /// It counts objects.
    Object(ObjectCounter),
    /// It counts the requests of this class that were sent.
    Queued(ResourceClass),
    /// It counts the requests of this class that were carried out.
    Drained(ResourceClass),
    /// It counts the requests of this class that were discarded.
    Discarded(ResourceClass),
}

/// A counter after one more event. The largest number is followed by zero.
pub open spec fn tick(counter: u64) -> u64 {
    if counter == u64::MAX {
        0
    } else {
        (counter + 1) as u64
    }
}

/// Count one more event.
fn inc(counter: &mut u64)
    ensures
        *final(counter) == tick(*old(counter)),
{
    *counter = counter.wrapping_add(1);
}

impl VramCounters {
    /// Nothing has been counted.
    pub open spec fn zero() -> VramCounters {
        VramCounters {
            textures_created: 0,
            textures_destroyed: 0,
            egl_images_created: 0,
            egl_images_destroyed: 0,
            renderbuffers_created: 0,
            renderbuffers_destroyed: 0,
            buffers_created: 0,
            buffers_destroyed: 0,
            framebuffers_created: 0,
            framebuffers_destroyed: 0,
            queued_texture: 0,
            queued_framebuffer: 0,
            queued_renderbuffer: 0,
            queued_egl_image: 0,
            queued_mapping: 0,
            queued_program: 0,
            queued_sync: 0,
            drained_texture: 0,
            drained_framebuffer: 0,
            drained_renderbuffer: 0,
            drained_egl_image: 0,
            drained_mapping: 0,
            drained_program: 0,
            drained_sync: 0,
            discarded_texture: 0,
            discarded_framebuffer: 0,
            discarded_renderbuffer: 0,
            discarded_egl_image: 0,
            discarded_mapping: 0,
            discarded_program: 0,
            discarded_sync: 0,
            egl_images_freed_on_import_error: 0,
        }
    }

    /// How many objects were counted.
    pub open spec fn objects(self, counter: ObjectCounter) -> u64 {
        match counter {
            ObjectCounter::TexturesCreated => self.textures_created,
            ObjectCounter::TexturesDestroyed => self.textures_destroyed,
            ObjectCounter::EglImagesCreated => self.egl_images_created,
            ObjectCounter::EglImagesDestroyed => self.egl_images_destroyed,
            ObjectCounter::EglImagesFreedOnImportError => self.egl_images_freed_on_import_error,
            ObjectCounter::RenderbuffersCreated => self.renderbuffers_created,
            ObjectCounter::RenderbuffersDestroyed => self.renderbuffers_destroyed,
            ObjectCounter::BuffersCreated => self.buffers_created,
            ObjectCounter::BuffersDestroyed => self.buffers_destroyed,
            ObjectCounter::FramebuffersCreated => self.framebuffers_created,
            ObjectCounter::FramebuffersDestroyed => self.framebuffers_destroyed,
        }
    }

    /// One more object was counted.
    #[verifier::opaque]
    pub open spec fn count_object(self, counter: ObjectCounter) -> VramCounters {
        match counter {
            ObjectCounter::TexturesCreated => VramCounters {
                textures_created: tick(self.textures_created),
                ..self
            },
            ObjectCounter::TexturesDestroyed => VramCounters {
                textures_destroyed: tick(self.textures_destroyed),
                ..self
            },
            ObjectCounter::EglImagesCreated => VramCounters {
                egl_images_created: tick(self.egl_images_created),
                ..self
            },
            ObjectCounter::EglImagesDestroyed => VramCounters {
                egl_images_destroyed: tick(self.egl_images_destroyed),
                ..self
            },
            ObjectCounter::EglImagesFreedOnImportError => VramCounters {
                egl_images_freed_on_import_error: tick(self.egl_images_freed_on_import_error),
                ..self
            },
            ObjectCounter::RenderbuffersCreated => VramCounters {
                renderbuffers_created: tick(self.renderbuffers_created),
                ..self
            },
            ObjectCounter::RenderbuffersDestroyed => VramCounters {
                renderbuffers_destroyed: tick(self.renderbuffers_destroyed),
                ..self
            },
            ObjectCounter::BuffersCreated => VramCounters {
                buffers_created: tick(self.buffers_created),
                ..self
            },
            ObjectCounter::BuffersDestroyed => VramCounters {
                buffers_destroyed: tick(self.buffers_destroyed),
                ..self
            },
            ObjectCounter::FramebuffersCreated => VramCounters {
                framebuffers_created: tick(self.framebuffers_created),
                ..self
            },
            ObjectCounter::FramebuffersDestroyed => VramCounters {
                framebuffers_destroyed: tick(self.framebuffers_destroyed),
                ..self
            },
        }
    }

    /// One more event for the counter.
    pub open spec fn count(self, counter: Counter) -> VramCounters {
        match counter {
            Counter::Object(counter) => self.count_object(counter),
            Counter::Queued(class) => self.count_queued(class),
            Counter::Drained(class) => self.count_drained(class),
            Counter::Discarded(class) => self.count_discarded(class),
        }
    }

    /// What the counter has come to.
    pub open spec fn read(self, counter: Counter) -> u64 {
        match counter {
            Counter::Object(counter) => self.objects(counter),
            Counter::Queued(class) => self.queued(class),
            Counter::Drained(class) => self.drained(class),
            Counter::Discarded(class) => self.discarded(class),
        }
    }

    /// The requests of this class that were sent.
    pub open spec fn queued(self, class: ResourceClass) -> u64 {
        match class {
            ResourceClass::Texture => self.queued_texture,
            ResourceClass::Framebuffer => self.queued_framebuffer,
            ResourceClass::Renderbuffer => self.queued_renderbuffer,
            ResourceClass::EglImage => self.queued_egl_image,
            ResourceClass::Mapping => self.queued_mapping,
            ResourceClass::Program => self.queued_program,
            ResourceClass::Sync => self.queued_sync,
        }
    }

    /// The requests of this class that were carried out.
    pub open spec fn drained(self, class: ResourceClass) -> u64 {
        match class {
            ResourceClass::Texture => self.drained_texture,
            ResourceClass::Framebuffer => self.drained_framebuffer,
            ResourceClass::Renderbuffer => self.drained_renderbuffer,
            ResourceClass::EglImage => self.drained_egl_image,
            ResourceClass::Mapping => self.drained_mapping,
            ResourceClass::Program => self.drained_program,
            ResourceClass::Sync => self.drained_sync,
        }
    }

    /// The requests of this class that were discarded.
    pub open spec fn discarded(self, class: ResourceClass) -> u64 {
        match class {
            ResourceClass::Texture => self.discarded_texture,
            ResourceClass::Framebuffer => self.discarded_framebuffer,
            ResourceClass::Renderbuffer => self.discarded_renderbuffer,
            ResourceClass::EglImage => self.discarded_egl_image,
            ResourceClass::Mapping => self.discarded_mapping,
            ResourceClass::Program => self.discarded_program,
            ResourceClass::Sync => self.discarded_sync,
        }
    }

    /// One more request of this class was sent.
    #[verifier::opaque]
    pub open spec fn count_queued(self, class: ResourceClass) -> VramCounters {
        match class {
            ResourceClass::Texture => VramCounters {
                queued_texture: tick(self.queued_texture),
                ..self
            },
            ResourceClass::Framebuffer => VramCounters {
                queued_framebuffer: tick(self.queued_framebuffer),
                ..self
            },
            ResourceClass::Renderbuffer => VramCounters {
                queued_renderbuffer: tick(self.queued_renderbuffer),
                ..self
            },
            ResourceClass::EglImage => VramCounters {
                queued_egl_image: tick(self.queued_egl_image),
                ..self
            },
            ResourceClass::Mapping => VramCounters {
                queued_mapping: tick(self.queued_mapping),
                ..self
            },
            ResourceClass::Program => VramCounters {
                queued_program: tick(self.queued_program),
                ..self
            },
            ResourceClass::Sync => VramCounters {
                queued_sync: tick(self.queued_sync),
                ..self
            },
        }
    }

    /// One more request of this class was carried out.
    #[verifier::opaque]
    pub open spec fn count_drained(self, class: ResourceClass) -> VramCounters {
        match class {
            ResourceClass::Texture => VramCounters {
                drained_texture: tick(self.drained_texture),
                ..self
            },
            ResourceClass::Framebuffer => VramCounters {
                drained_framebuffer: tick(self.drained_framebuffer),
                ..self
            },
            ResourceClass::Renderbuffer => VramCounters {
                drained_renderbuffer: tick(self.drained_renderbuffer),
                ..self
            },
            ResourceClass::EglImage => VramCounters {
                drained_egl_image: tick(self.drained_egl_image),
                ..self
            },
            ResourceClass::Mapping => VramCounters {
                drained_mapping: tick(self.drained_mapping),
                ..self
            },
            ResourceClass::Program => VramCounters {
                drained_program: tick(self.drained_program),
                ..self
            },
            ResourceClass::Sync => VramCounters {
                drained_sync: tick(self.drained_sync),
                ..self
            },
        }
    }

    /// One more request of this class was discarded.
    #[verifier::opaque]
    pub open spec fn count_discarded(self, class: ResourceClass) -> VramCounters {
        match class {
            ResourceClass::Texture => VramCounters {
                discarded_texture: tick(self.discarded_texture),
                ..self
            },
            ResourceClass::Framebuffer => VramCounters {
                discarded_framebuffer: tick(self.discarded_framebuffer),
                ..self
            },
            ResourceClass::Renderbuffer => VramCounters {
                discarded_renderbuffer: tick(self.discarded_renderbuffer),
                ..self
            },
            ResourceClass::EglImage => VramCounters {
                discarded_egl_image: tick(self.discarded_egl_image),
                ..self
            },
            ResourceClass::Mapping => VramCounters {
                discarded_mapping: tick(self.discarded_mapping),
                ..self
            },
            ResourceClass::Program => VramCounters {
                discarded_program: tick(self.discarded_program),
                ..self
            },
            ResourceClass::Sync => VramCounters {
                discarded_sync: tick(self.discarded_sync),
                ..self
            },
        }
    }
}

/// A request of one class counts for that class alone, and under one heading.
pub proof fn lemma_counting(counters: VramCounters, class: ResourceClass, other: ResourceClass)
    ensures
        counters.count_queued(class).queued(other) == if other == class {
            tick(counters.queued(other))
        } else {
            counters.queued(other)
        },
        counters.count_queued(class).drained(other) == counters.drained(other),
        counters.count_queued(class).discarded(other) == counters.discarded(other),
        counters.count_drained(class).drained(other) == if other == class {
            tick(counters.drained(other))
        } else {
            counters.drained(other)
        },
        counters.count_drained(class).queued(other) == counters.queued(other),
        counters.count_drained(class).discarded(other) == counters.discarded(other),
        counters.count_discarded(class).discarded(other) == if other == class {
            tick(counters.discarded(other))
        } else {
            counters.discarded(other)
        },
        counters.count_discarded(class).queued(other) == counters.queued(other),
        counters.count_discarded(class).drained(other) == counters.drained(other),
{
    reveal(VramCounters::count_queued);
    reveal(VramCounters::count_drained);
    reveal(VramCounters::count_discarded);
}

/// An object is counted by one counter, and a request by one: every other counter
/// keeps what it has come to.
pub proof fn lemma_reading(counters: VramCounters, counted: Counter, other: Counter)
    ensures
        counters.count(counted).read(other) == if other == counted {
            tick(counters.read(other))
        } else {
            counters.read(other)
        },
{
    reveal(VramCounters::count_object);
    reveal(VramCounters::count_queued);
    reveal(VramCounters::count_drained);
    reveal(VramCounters::count_discarded);
}

/// Counters that read alike everywhere are the same.
pub proof fn lemma_counters_are_what_is_read(a: VramCounters, b: VramCounters)
    requires
        forall|counter: Counter| #[trigger] a.read(counter) == b.read(counter),
    ensures
        a == b,
{
    assert(a.read(Counter::Object(ObjectCounter::TexturesCreated)) == a.textures_created);
    assert(a.read(Counter::Object(ObjectCounter::TexturesDestroyed)) == a.textures_destroyed);
    assert(a.read(Counter::Object(ObjectCounter::EglImagesCreated)) == a.egl_images_created);
    assert(a.read(Counter::Object(ObjectCounter::EglImagesDestroyed)) == a.egl_images_destroyed);
    assert(a.read(Counter::Object(ObjectCounter::EglImagesFreedOnImportError)) == a.egl_images_freed_on_import_error);
    assert(a.read(Counter::Object(ObjectCounter::RenderbuffersCreated)) == a.renderbuffers_created);
    assert(a.read(Counter::Object(ObjectCounter::RenderbuffersDestroyed)) == a.renderbuffers_destroyed);
    assert(a.read(Counter::Object(ObjectCounter::BuffersCreated)) == a.buffers_created);
    assert(a.read(Counter::Object(ObjectCounter::BuffersDestroyed)) == a.buffers_destroyed);
    assert(a.read(Counter::Object(ObjectCounter::FramebuffersCreated)) == a.framebuffers_created);
    assert(a.read(Counter::Object(ObjectCounter::FramebuffersDestroyed)) == a.framebuffers_destroyed);
    assert(a.read(Counter::Queued(ResourceClass::Texture)) == a.queued_texture);
    assert(a.read(Counter::Queued(ResourceClass::Framebuffer)) == a.queued_framebuffer);
    assert(a.read(Counter::Queued(ResourceClass::Renderbuffer)) == a.queued_renderbuffer);
    assert(a.read(Counter::Queued(ResourceClass::EglImage)) == a.queued_egl_image);
    assert(a.read(Counter::Queued(ResourceClass::Mapping)) == a.queued_mapping);
    assert(a.read(Counter::Queued(ResourceClass::Program)) == a.queued_program);
    assert(a.read(Counter::Queued(ResourceClass::Sync)) == a.queued_sync);
    assert(a.read(Counter::Drained(ResourceClass::Texture)) == a.drained_texture);
    assert(a.read(Counter::Drained(ResourceClass::Framebuffer)) == a.drained_framebuffer);
    assert(a.read(Counter::Drained(ResourceClass::Renderbuffer)) == a.drained_renderbuffer);
    assert(a.read(Counter::Drained(ResourceClass::EglImage)) == a.drained_egl_image);
    assert(a.read(Counter::Drained(ResourceClass::Mapping)) == a.drained_mapping);
    assert(a.read(Counter::Drained(ResourceClass::Program)) == a.drained_program);
    assert(a.read(Counter::Drained(ResourceClass::Sync)) == a.drained_sync);
    assert(a.read(Counter::Discarded(ResourceClass::Texture)) == a.discarded_texture);
    assert(a.read(Counter::Discarded(ResourceClass::Framebuffer)) == a.discarded_framebuffer);
    assert(a.read(Counter::Discarded(ResourceClass::Renderbuffer)) == a.discarded_renderbuffer);
    assert(a.read(Counter::Discarded(ResourceClass::EglImage)) == a.discarded_egl_image);
    assert(a.read(Counter::Discarded(ResourceClass::Mapping)) == a.discarded_mapping);
    assert(a.read(Counter::Discarded(ResourceClass::Program)) == a.discarded_program);
    assert(a.read(Counter::Discarded(ResourceClass::Sync)) == a.discarded_sync);
}

/// The requests of one class are set for that class alone.
pub proof fn lemma_setting(
    trackers: TrackersModel,
    class: ResourceClass,
    requests: QueueModel,
    other: ResourceClass,
)
    ensures
        trackers.set(class, requests).get(other) == if other == class {
            requests
        } else {
            trackers.get(other)
        },
{
    reveal(TrackersModel::set);
}

/// One tracker of requests for each class.
struct Trackers {
    texture: QueueTracker,
    framebuffer: QueueTracker,
    renderbuffer: QueueTracker,
    egl_image: QueueTracker,
    mapping: QueueTracker,
    program: QueueTracker,
    sync: QueueTracker,
}

/// What the trackers stand for.
#[verifier::ext_equal]
pub struct TrackersModel {
    pub texture: QueueModel,
    pub framebuffer: QueueModel,
    pub renderbuffer: QueueModel,
    pub egl_image: QueueModel,
    pub mapping: QueueModel,
    pub program: QueueModel,
    pub sync: QueueModel,
}

impl View for Trackers {
    type V = TrackersModel;

    closed spec fn view(&self) -> TrackersModel {
        TrackersModel {
            texture: self.texture@,
            framebuffer: self.framebuffer@,
            renderbuffer: self.renderbuffer@,
            egl_image: self.egl_image@,
            mapping: self.mapping@,
            program: self.program@,
            sync: self.sync@,
        }
    }
}

impl TrackersModel {
    /// No request has been submitted.
    pub open spec fn start() -> TrackersModel {
        TrackersModel {
            texture: QueueModel::start(),
            framebuffer: QueueModel::start(),
            renderbuffer: QueueModel::start(),
            egl_image: QueueModel::start(),
            mapping: QueueModel::start(),
            program: QueueModel::start(),
            sync: QueueModel::start(),
        }
    }

    /// The requests of this class.
    pub open spec fn get(self, class: ResourceClass) -> QueueModel {
        match class {
            ResourceClass::Texture => self.texture,
            ResourceClass::Framebuffer => self.framebuffer,
            ResourceClass::Renderbuffer => self.renderbuffer,
            ResourceClass::EglImage => self.egl_image,
            ResourceClass::Mapping => self.mapping,
            ResourceClass::Program => self.program,
            ResourceClass::Sync => self.sync,
        }
    }

    /// The trackers with these requests of this class.
    #[verifier::opaque]
    pub open spec fn set(self, class: ResourceClass, requests: QueueModel) -> TrackersModel {
        match class {
            ResourceClass::Texture => TrackersModel { texture: requests, ..self },
            ResourceClass::Framebuffer => TrackersModel { framebuffer: requests, ..self },
            ResourceClass::Renderbuffer => TrackersModel { renderbuffer: requests, ..self },
            ResourceClass::EglImage => TrackersModel { egl_image: requests, ..self },
            ResourceClass::Mapping => TrackersModel { mapping: requests, ..self },
            ResourceClass::Program => TrackersModel { program: requests, ..self },
            ResourceClass::Sync => TrackersModel { sync: requests, ..self },
        }
    }

    /// Every tracker is in order.
    pub open spec fn wf(self) -> bool {
        forall|class: ResourceClass| (#[trigger] self.get(class)).wf()
    }
}

/// The books on GPU objects: the counters, the cleanup requests that are
/// outstanding, and where the `EGLImage` handles that live were created.
pub struct Vram {
    counters: VramCounters,
    trackers: Trackers,
    trace: bool,
    images: HashMap<usize, Arc<Backtrace>>,
}

/// What [`Vram`] stands for.
#[verifier::ext_equal]
pub struct VramModel {
    /// The counters.
    pub counters: VramCounters,
    /// The cleanup requests.
    pub trackers: TrackersModel,
    /// Whether the creation of `EGLImage` handles is traced.
    pub trace: bool,
    /// The traced handles that live, with the places where they were created.
    pub images: Map<usize, Arc<Backtrace>>,
}

impl View for Vram {
    type V = VramModel;

    closed spec fn view(&self) -> VramModel {
        VramModel {
            counters: self.counters,
            trackers: self.trackers@,
            trace: self.trace,
            images: self.images@,
        }
    }
}

impl VramModel {
    /// Nothing has been created.
    pub open spec fn start(trace: bool) -> VramModel {
        VramModel {
            counters: VramCounters::zero(),
            trackers: TrackersModel::start(),
            trace,
            images: Map::empty(),
        }
    }

    /// The trackers are in order, and nothing is traced unless asked for.
    pub open spec fn wf(self) -> bool {
        &&& self.trackers.wf()
        &&& !self.trace ==> self.images.dom().is_empty()
    }

    /// The books with these counters.
    pub open spec fn with_counters(self, counters: VramCounters) -> VramModel {
        VramModel { counters, ..self }
    }

    /// The `EGLImage` handle was created at `site`.
    pub open spec fn register_image(self, handle: usize, site: Arc<Backtrace>) -> VramModel {
        if self.trace {
            VramModel { images: self.images.insert(handle, site), ..self }
        } else {
            self
        }
    }

    /// The `EGLImage` handle was destroyed.
    pub open spec fn deregister_image(self, handle: usize) -> VramModel {
        if self.trace {
            VramModel { images: self.images.remove(handle), ..self }
        } else {
            self
        }
    }

    /// The `EGLImage` handle was created at `site`, and counted.
    pub open spec fn image_created(self, handle: usize, site: Arc<Backtrace>) -> VramModel {
        self.with_counters(
            self.counters.count_object(ObjectCounter::EglImagesCreated),
        ).register_image(handle, site)
    }

    /// The `EGLImage` handle was destroyed, and counted.
    pub open spec fn image_destroyed(self, handle: usize) -> VramModel {
        self.with_counters(
            self.counters.count_object(ObjectCounter::EglImagesDestroyed),
        ).deregister_image(handle)
    }

    /// `sites` lists the traced handles in some order, each with the place where it
    /// was created.
    pub open spec fn listed_by(self, sites: Seq<(usize, Arc<Backtrace>)>) -> bool {
        exists|handles: Seq<usize>|
            {
                &&& handles.no_duplicates()
                &&& #[trigger] handles.to_set() == self.images.dom()
                &&& sites == handles.map_values(|handle: usize| (handle, self.images[handle]))
            }
    }
}

impl Vram {
    /// Books in which nothing has been created. The creation of `EGLImage` handles
    /// is traced if `trace`.
    pub fn new(trace: bool) -> (vram: Vram)
        ensures
            vram@.wf(),
            vram@ == VramModel::start(trace),
    {
        Vram {
            counters: VramCounters {
                textures_created: 0,
                textures_destroyed: 0,
                egl_images_created: 0,
                egl_images_destroyed: 0,
                renderbuffers_created: 0,
                renderbuffers_destroyed: 0,
                buffers_created: 0,
                buffers_destroyed: 0,
                framebuffers_created: 0,
                framebuffers_destroyed: 0,
                queued_texture: 0,
                queued_framebuffer: 0,
                queued_renderbuffer: 0,
                queued_egl_image: 0,
                queued_mapping: 0,
                queued_program: 0,
                queued_sync: 0,
                drained_texture: 0,
                drained_framebuffer: 0,
                drained_renderbuffer: 0,
                drained_egl_image: 0,
                drained_mapping: 0,
                drained_program: 0,
                drained_sync: 0,
                discarded_texture: 0,
                discarded_framebuffer: 0,
                discarded_renderbuffer: 0,
                discarded_egl_image: 0,
                discarded_mapping: 0,
                discarded_program: 0,
                discarded_sync: 0,
                egl_images_freed_on_import_error: 0,
            },
            trackers: Trackers {
                texture: QueueTracker::new(),
                framebuffer: QueueTracker::new(),
                renderbuffer: QueueTracker::new(),
                egl_image: QueueTracker::new(),
                mapping: QueueTracker::new(),
                program: QueueTracker::new(),
                sync: QueueTracker::new(),
            },
            trace,
            images: HashMap::new(),
        }
    }

    /// The submission order and the outstanding requests of one class.
    pub fn queue_snapshot(&self, class: ResourceClass) -> (snapshot: QueueSnapshot)
        requires
            self@.wf(),
        ensures
            self@.trackers.get(class).reported_by(snapshot),
    {
        assert(self@.trackers.get(class).wf());
        match class {
            ResourceClass::Texture => self.trackers.texture.snapshot(),
            ResourceClass::Framebuffer => self.trackers.framebuffer.snapshot(),
            ResourceClass::Renderbuffer => self.trackers.renderbuffer.snapshot(),
            ResourceClass::EglImage => self.trackers.egl_image.snapshot(),
            ResourceClass::Mapping => self.trackers.mapping.snapshot(),
            ResourceClass::Program => self.trackers.program.snapshot(),
            ResourceClass::Sync => self.trackers.sync.snapshot(),
        }
    }

    /// Submit one more request of this class.
    fn submit(&mut self, class: ResourceClass) -> (sequence: u64)
        requires
            old(self)@.wf(),
            old(self)@.trackers.get(class).submitted < u64::MAX,
        ensures
            final(self)@.wf(),
            final(self)@ == (VramModel {
                trackers: old(self)@.trackers.set(
                    class,
                    old(self)@.trackers.get(class).submit(),
                ),
                ..old(self)@
            }),
            sequence == old(self)@.trackers.get(class).submit().submitted,
    {
        let ghost before = self@.trackers;
        assert(before.get(class).wf());
        let sequence = match class {
            ResourceClass::Texture => self.trackers.texture.submit(),
            ResourceClass::Framebuffer => self.trackers.framebuffer.submit(),
            ResourceClass::Renderbuffer => self.trackers.renderbuffer.submit(),
            ResourceClass::EglImage => self.trackers.egl_image.submit(),
            ResourceClass::Mapping => self.trackers.mapping.submit(),
            ResourceClass::Program => self.trackers.program.submit(),
            ResourceClass::Sync => self.trackers.sync.submit(),
        };
        proof {
            reveal(TrackersModel::set);
            let after = self@.trackers;
            assert(after.get(class).wf());
            assert forall|other: ResourceClass| (#[trigger] after.get(other)).wf() by {
                assert(before.get(other).wf());
            }
        }
        sequence
    }

    /// Mark a request of this class as completed.
    fn complete(&mut self, class: ResourceClass, sequence: u64)
        requires
            old(self)@.wf(),
        ensures
            final(self)@.wf(),
            final(self)@ == (VramModel {
                trackers: old(self)@.trackers.set(
                    class,
                    old(self)@.trackers.get(class).complete(sequence),
                ),
                ..old(self)@
            }),
    {
        let ghost before = self@.trackers;
        assert(before.get(class).wf());
        match class {
            ResourceClass::Texture => {
                self.trackers.texture.complete(sequence);
            },
            ResourceClass::Framebuffer => {
                self.trackers.framebuffer.complete(sequence);
            },
            ResourceClass::Renderbuffer => {
                self.trackers.renderbuffer.complete(sequence);
            },
            ResourceClass::EglImage => {
                self.trackers.egl_image.complete(sequence);
            },
            ResourceClass::Mapping => {
                self.trackers.mapping.complete(sequence);
            },
            ResourceClass::Program => {
                self.trackers.program.complete(sequence);
            },
            ResourceClass::Sync => {
                self.trackers.sync.complete(sequence);
            },
        }
        proof {
            reveal(TrackersModel::set);
            let after = self@.trackers;
            assert(after.get(class).wf());
            assert forall|other: ResourceClass| (#[trigger] after.get(other)).wf() by {
                assert(before.get(other).wf());
            }
        }
    }
}

/// The books on a resource's own cleanup request.
impl Accounting for CleanupResource {
    type Ledger = Vram;

    type Model = VramModel;

    open spec fn model(ledger: Vram) -> VramModel {
        ledger@
    }

    open spec fn consistent(books: VramModel) -> bool {
        books.wf()
    }

    open spec fn has_room(self, books: VramModel) -> bool {
        books.trackers.get(self.class()).submitted < u64::MAX
    }

    open spec fn after_queued(self, books: VramModel) -> VramModel {
        VramModel {
            counters: books.counters.count_queued(self.class()),
            trackers: books.trackers.set(
                self.class(),
                books.trackers.get(self.class()).submit(),
            ),
            ..books
        }
    }

    open spec fn next_sequence(self, books: VramModel) -> u64 {
        books.trackers.get(self.class()).submit().submitted
    }

    open spec fn after_discarded(self, books: VramModel) -> VramModel {
        books.with_counters(books.counters.count_discarded(self.class()))
    }

    open spec fn after_finished(self, books: VramModel, sequence: u64) -> VramModel {
        VramModel {
            trackers: books.trackers.set(
                self.class(),
                books.trackers.get(self.class()).complete(sequence),
            ),
            ..books
        }
    }

    fn queued(&self, ledger: &mut Vram) -> (sequence: u64) {
        reveal(VramCounters::count_queued);
        let class = self.class_of();
        match class {
            ResourceClass::Texture => {
                inc(&mut ledger.counters.queued_texture);
            },
            ResourceClass::Framebuffer => {
                inc(&mut ledger.counters.queued_framebuffer);
            },
            ResourceClass::Renderbuffer => {
                inc(&mut ledger.counters.queued_renderbuffer);
            },
            ResourceClass::EglImage => {
                inc(&mut ledger.counters.queued_egl_image);
            },
            ResourceClass::Mapping => {
                inc(&mut ledger.counters.queued_mapping);
            },
            ResourceClass::Program => {
                inc(&mut ledger.counters.queued_program);
            },
            ResourceClass::Sync => {
                inc(&mut ledger.counters.queued_sync);
            },
        }
        ledger.submit(class)
    }

    fn discarded(&self, ledger: &mut Vram) {
        reveal(VramCounters::count_discarded);
        match self.class_of() {
            ResourceClass::Texture => {
                inc(&mut ledger.counters.discarded_texture);
            },
            ResourceClass::Framebuffer => {
                inc(&mut ledger.counters.discarded_framebuffer);
            },
            ResourceClass::Renderbuffer => {
                inc(&mut ledger.counters.discarded_renderbuffer);
            },
            ResourceClass::EglImage => {
                inc(&mut ledger.counters.discarded_egl_image);
            },
            ResourceClass::Mapping => {
                inc(&mut ledger.counters.discarded_mapping);
            },
            ResourceClass::Program => {
                inc(&mut ledger.counters.discarded_program);
            },
            ResourceClass::Sync => {
                inc(&mut ledger.counters.discarded_sync);
            },
        }
    }

    fn finished(&self, ledger: &mut Vram, sequence: u64) {
        ledger.complete(self.class_of(), sequence);
    }
}

impl CleanupResource {
    /// The kind of the resource.
    pub fn class_of(&self) -> (class: ResourceClass)
        ensures
            class == self.class(),
    {
        match self {
            CleanupResource::Texture(_) => ResourceClass::Texture,
            CleanupResource::FramebufferObject(_) => ResourceClass::Framebuffer,
            CleanupResource::RenderbufferObject(_) => ResourceClass::Renderbuffer,
            CleanupResource::EGLImage(_) => ResourceClass::EglImage,
            CleanupResource::Mapping(_, _) => ResourceClass::Mapping,
            CleanupResource::Program(_) => ResourceClass::Program,
            CleanupResource::Sync(_) => ResourceClass::Sync,
        }
    }
}

/// Count a GL texture that was allocated.
pub fn texture_created(vram: &mut Vram)
    requires
        old(vram)@.wf(),
    ensures
        final(vram)@.wf(),
        final(vram)@ == old(vram)@.with_counters(
            old(vram)@.counters.count_object(ObjectCounter::TexturesCreated),
        ),
{
    reveal(VramCounters::count_object);
    inc(&mut vram.counters.textures_created);
}

/// Count a GL texture that was freed.
pub fn texture_destroyed(vram: &mut Vram)
    requires
        old(vram)@.wf(),
    ensures
        final(vram)@.wf(),
        final(vram)@ == old(vram)@.with_counters(
            old(vram)@.counters.count_object(ObjectCounter::TexturesDestroyed),
        ),
{
    reveal(VramCounters::count_object);
    inc(&mut vram.counters.textures_destroyed);
}

/// Count an `EGLImage` handle that was created, and note where if that is traced.
pub fn egl_image_created(vram: &mut Vram, handle: usize)
    requires
        old(vram)@.wf(),
    ensures
        final(vram)@.wf(),
        exists|site: Arc<Backtrace>|
            {
                &&& old(vram)@.trace ==> backtrace::is_capture(*site)
                &&& final(vram)@ == #[trigger] old(vram)@.image_created(handle, site)
            },
{
    reveal(VramCounters::count_object);
    let ghost before = vram@;
    inc(&mut vram.counters.egl_images_created);
    let ghost counted = vram@;
    egl_image_register(vram, handle);
    proof {
        let site = choose|site: Arc<Backtrace>|
            {
                &&& counted.trace ==> backtrace::is_capture(*site)
                &&& vram@ == #[trigger] counted.register_image(handle, site)
            };
        assert(vram@ == before.image_created(handle, site));
    }
}

/// Count an `EGLImage` handle that was created at `site`.
pub fn egl_image_created_at(vram: &mut Vram, handle: usize, site: Arc<Backtrace>)
    requires
        old(vram)@.wf(),
    ensures
        final(vram)@.wf(),
        final(vram)@ == old(vram)@.image_created(handle, site),
{
    reveal(VramCounters::count_object);
    inc(&mut vram.counters.egl_images_created);
    egl_image_register_at(vram, handle, site);
}

/// Count an `EGLImage` handle that was destroyed, and forget where it was created.
pub fn egl_image_destroyed(vram: &mut Vram, handle: usize)
    requires
        old(vram)@.wf(),
    ensures
        final(vram)@.wf(),
        final(vram)@ == old(vram)@.image_destroyed(handle),
{
    reveal(VramCounters::count_object);
    inc(&mut vram.counters.egl_images_destroyed);
    egl_image_deregister(vram, handle);
}

/// Count an `EGLImage` handle that was freed because binding it failed on import.
pub fn egl_image_freed_on_import_error(vram: &mut Vram)
    requires
        old(vram)@.wf(),
    ensures
        final(vram)@.wf(),
        final(vram)@ == old(vram)@.with_counters(
            old(vram)@.counters.count_object(ObjectCounter::EglImagesFreedOnImportError),
        ),
{
    reveal(VramCounters::count_object);
    inc(&mut vram.counters.egl_images_freed_on_import_error);
}

/// Count an `EGLImage` handle that was destroyed by somebody else than the renderer.
///
/// To be called right after a raw destruction of a handle that was counted when it
/// was created: without it, the handle would look like a leak for ever.
pub fn note_egl_image_destroyed(vram: &mut Vram, handle: usize)
    requires
        old(vram)@.wf(),
    ensures
        final(vram)@.wf(),
        final(vram)@ == old(vram)@.image_destroyed(handle),
{
    egl_image_destroyed(vram, handle);
}

/// Note where the `EGLImage` handle is created, if that is traced.
fn egl_image_register(vram: &mut Vram, handle: usize)
    requires
        old(vram)@.wf(),
    ensures
        final(vram)@.wf(),
        exists|site: Arc<Backtrace>|
            {
                &&& old(vram)@.trace ==> backtrace::is_capture(*site)
                &&& final(vram)@ == #[trigger] old(vram)@.register_image(handle, site)
            },
{
    if !vram.trace {
        proof {
            let site = arbitrary::<Arc<Backtrace>>();
            assert(vram@ == vram@.register_image(handle, site));
        }
        return;
    }
    let site = Arc::new(Backtrace::force_capture());
    assert(backtrace::is_capture(*site));
    egl_image_register_at(vram, handle, site);
}

/// Note that the `EGLImage` handle was created at `site`, if that is traced.
fn egl_image_register_at(vram: &mut Vram, handle: usize, site: Arc<Backtrace>)
    requires
        old(vram)@.wf(),
    ensures
        final(vram)@.wf(),
        final(vram)@ == old(vram)@.register_image(handle, site),
{
    if vram.trace {
        vram.images.insert(handle, site);
    }
}

/// Forget where the `EGLImage` handle was created, if that is traced.
fn egl_image_deregister(vram: &mut Vram, handle: usize)
    requires
        old(vram)@.wf(),
    ensures
        final(vram)@.wf(),
        final(vram)@ == old(vram)@.deregister_image(handle),
{
    if vram.trace {
        vram.images.remove(&handle);
    }
}

impl Vram {
    /// The traced `EGLImage` handles in some order, each with the place where it was
    /// created.
    pub fn image_sites(&self) -> (sites: Vec<(usize, Arc<Backtrace>)>)
        requires
            self@.wf(),
        ensures
            self@.listed_by(sites@),
            sites@.len() == self@.images.dom().len(),
            forall|i: int|
                0 <= i < sites@.len() ==> {
                    &&& self@.images.contains_key((#[trigger] sites@[i]).0)
                    &&& sites@[i].1 == self@.images[sites@[i].0]
                },
            forall|handle: usize| #[trigger]
                self@.images.contains_key(handle) ==> sites@.contains(
                    (handle, self@.images[handle]),
                ),
    {
        let mut sites: Vec<(usize, Arc<Backtrace>)> = Vec::new();
        let ghost mut handles: Seq<usize> = Seq::empty();
        for (handle, site) in it: self.images.iter()
            invariant
                handles.len() == it.index(),
                it.seq().no_duplicates(),
                forall|i: int|
                    0 <= i < it.seq().len() ==> {
                        &&& self.images@.contains_key(*(#[trigger] it.seq()[i]).0)
                        &&& self.images@[*it.seq()[i].0] == *it.seq()[i].1
                    },
                forall|handle: usize| #[trigger]
                    self.images@.contains_key(handle) ==> it.seq().contains(
                        (&handle, &self.images@[handle]),
                    ),
                sites@ == handles.map_values(|handle: usize| (handle, self@.images[handle])),
                forall|i: int|
                    #![trigger handles[i]]
                    #![trigger it.seq()[i]]
                    0 <= i < handles.len() ==> handles[i] == *it.seq()[i].0,
        {
            sites.push((*handle, site.clone()));
            proof {
                handles = handles.push(*handle);
            }
        }
        proof {
            assert forall|i: int, j: int| 0 <= i < j < handles.len() implies handles[i]
                != handles[j] by {
                if handles[i] == handles[j] {
                }
            }
            assert forall|handle: usize| #[trigger] self.images@.contains_key(
                handle,
            ) implies handles.contains(handle) by {}
            assert(handles.to_set() =~= self.images@.dom());
            handles.unique_seq_to_set();
            assert forall|i: int| 0 <= i < sites@.len() implies {
                &&& self@.images.contains_key((#[trigger] sites@[i]).0)
                &&& sites@[i].1 == self@.images[sites@[i].0]
            } by {
                assert(sites@[i] == (handles[i], self@.images[handles[i]]));
            }
            assert forall|handle: usize| #[trigger] self@.images.contains_key(
                handle,
            ) implies sites@.contains((handle, self@.images[handle])) by {
                let i = choose|i: int| 0 <= i < handles.len() && handles[i] == handle;
                assert(sites@[i] == (handle, self@.images[handle]));
            }
        }
        sites
    }
}

/// `listed` names the same handles as `sites`, in the same order, each with the text of
/// its own backtrace.
pub open spec fn renders(
    listed: Seq<(usize, String)>,
    sites: Seq<(usize, Arc<Backtrace>)>,
) -> bool {
    &&& listed.len() == sites.len()
    &&& forall|i: int|
        0 <= i < sites.len() ==> {
            &&& (#[trigger] listed[i]).0 == sites[i].0
            &&& backtrace::is_rendering(*sites[i].1, listed[i].1)
        }
}

/// Each of `sites` with the text of its backtrace. It needs no books, so that those
/// behind a lock are free while the text is rendered, which takes long.
///
/// What the text holds is not said: it depends on the debug information that is found
/// when it is rendered.
pub fn render_image_sites(sites: &Vec<(usize, Arc<Backtrace>)>) -> (listed: Vec<(usize, String)>)
    ensures
        renders(listed@, sites@),
        listed@.len() == sites@.len(),
        forall|i: int|
            0 <= i < listed@.len() ==> {
                &&& (#[trigger] listed@[i]).0 == sites@[i].0
                &&& call_ensures(backtrace::symbolise, (&*sites@[i].1,), listed@[i].1)
            },
{
    let mut listed: Vec<(usize, String)> = Vec::new();
    for i in 0..sites.len()
        invariant
            listed@.len() == i,
            forall|j: int|
                0 <= j < i ==> {
                    &&& (#[trigger] listed@[j]).0 == sites@[j].0
                    &&& backtrace::is_rendering(*sites@[j].1, listed@[j].1)
                },
    {
        listed.push((sites[i].0, backtrace::symbolise(&sites[i].1)));
    }
    listed
}

/// The traced `EGLImage` handles in some order, each with the text of the backtrace
/// that shows where it was created.
///
/// `vram` is `None` where it cannot be read. What the text holds is not said: it depends
/// on the debug information that is found when it is rendered.
pub fn debug_egl_image_sites(vram: Option<&Vram>) -> (listed: Vec<(usize, String)>)
    requires
        vram matches Some(vram) ==> vram@.wf(),
    ensures
        match vram {
            None => listed@.len() == 0,
            Some(vram) => exists|sites: Seq<(usize, Arc<Backtrace>)>|
                #[trigger] vram@.listed_by(sites) && renders(listed@, sites),
        },
{
    match vram {
        None => Vec::new(),
        Some(vram) => {
            let sites = vram.image_sites();
            render_image_sites(&sites)
        },
    }
}

/// Count a GL renderbuffer that was allocated.
pub fn renderbuffer_created(vram: &mut Vram)
    requires
        old(vram)@.wf(),
    ensures
        final(vram)@.wf(),
        final(vram)@ == old(vram)@.with_counters(
            old(vram)@.counters.count_object(ObjectCounter::RenderbuffersCreated),
        ),
{
    reveal(VramCounters::count_object);
    inc(&mut vram.counters.renderbuffers_created);
}

/// Count a GL renderbuffer that was freed.
pub fn renderbuffer_destroyed(vram: &mut Vram)
    requires
        old(vram)@.wf(),
    ensures
        final(vram)@.wf(),
        final(vram)@ == old(vram)@.with_counters(
            old(vram)@.counters.count_object(ObjectCounter::RenderbuffersDestroyed),
        ),
{
    reveal(VramCounters::count_object);
    inc(&mut vram.counters.renderbuffers_destroyed);
}

/// Count a GL buffer object that was allocated.
pub fn buffer_created(vram: &mut Vram)
    requires
        old(vram)@.wf(),
    ensures
        final(vram)@.wf(),
        final(vram)@ == old(vram)@.with_counters(
            old(vram)@.counters.count_object(ObjectCounter::BuffersCreated),
        ),
{
    reveal(VramCounters::count_object);
    inc(&mut vram.counters.buffers_created);
}

/// Count a GL buffer object that was freed.
pub fn buffer_destroyed(vram: &mut Vram)
    requires
        old(vram)@.wf(),
    ensures
        final(vram)@.wf(),
        final(vram)@ == old(vram)@.with_counters(
            old(vram)@.counters.count_object(ObjectCounter::BuffersDestroyed),
        ),
{
    reveal(VramCounters::count_object);
    inc(&mut vram.counters.buffers_destroyed);
}

/// Count a GL framebuffer object that was allocated.
pub fn framebuffer_created(vram: &mut Vram)
    requires
        old(vram)@.wf(),
    ensures
        final(vram)@.wf(),
        final(vram)@ == old(vram)@.with_counters(
            old(vram)@.counters.count_object(ObjectCounter::FramebuffersCreated),
        ),
{
    reveal(VramCounters::count_object);
    inc(&mut vram.counters.framebuffers_created);
}

/// Count a GL framebuffer object that was freed.
pub fn framebuffer_destroyed(vram: &mut Vram)
    requires
        old(vram)@.wf(),
    ensures
        final(vram)@.wf(),
        final(vram)@ == old(vram)@.with_counters(
            old(vram)@.counters.count_object(ObjectCounter::FramebuffersDestroyed),
        ),
{
    reveal(VramCounters::count_object);
    inc(&mut vram.counters.framebuffers_destroyed);
}

/// Count a cleanup request of the class texture that was carried out.
pub fn drained_texture(vram: &mut Vram)
    requires
        old(vram)@.wf(),
    ensures
        final(vram)@.wf(),
        final(vram)@ == old(vram)@.with_counters(
            old(vram)@.counters.count_drained(ResourceClass::Texture),
        ),
{
    reveal(VramCounters::count_drained);
    inc(&mut vram.counters.drained_texture);
}

/// Count a cleanup request of the class framebuffer that was carried out.
pub fn drained_framebuffer(vram: &mut Vram)
    requires
        old(vram)@.wf(),
    ensures
        final(vram)@.wf(),
        final(vram)@ == old(vram)@.with_counters(
            old(vram)@.counters.count_drained(ResourceClass::Framebuffer),
        ),
{
    reveal(VramCounters::count_drained);
    inc(&mut vram.counters.drained_framebuffer);
}

/// Count a cleanup request of the class renderbuffer that was carried out.
pub fn drained_renderbuffer(vram: &mut Vram)
    requires
        old(vram)@.wf(),
    ensures
        final(vram)@.wf(),
        final(vram)@ == old(vram)@.with_counters(
            old(vram)@.counters.count_drained(ResourceClass::Renderbuffer),
        ),
{
    reveal(VramCounters::count_drained);
    inc(&mut vram.counters.drained_renderbuffer);
}

/// Count a cleanup request of the class `EGLImage` that was carried out.
pub fn drained_egl_image(vram: &mut Vram)
    requires
        old(vram)@.wf(),
    ensures
        final(vram)@.wf(),
        final(vram)@ == old(vram)@.with_counters(
            old(vram)@.counters.count_drained(ResourceClass::EglImage),
        ),
{
    reveal(VramCounters::count_drained);
    inc(&mut vram.counters.drained_egl_image);
}

/// Count a cleanup request of the class mapping that was carried out.
pub fn drained_mapping(vram: &mut Vram)
    requires
        old(vram)@.wf(),
    ensures
        final(vram)@.wf(),
        final(vram)@ == old(vram)@.with_counters(
            old(vram)@.counters.count_drained(ResourceClass::Mapping),
        ),
{
    reveal(VramCounters::count_drained);
    inc(&mut vram.counters.drained_mapping);
}

/// Count a cleanup request of the class program that was carried out.
pub fn drained_program(vram: &mut Vram)
    requires
        old(vram)@.wf(),
    ensures
        final(vram)@.wf(),
        final(vram)@ == old(vram)@.with_counters(
            old(vram)@.counters.count_drained(ResourceClass::Program),
        ),
{
    reveal(VramCounters::count_drained);
    inc(&mut vram.counters.drained_program);
}

/// Count a cleanup request of the class sync that was carried out.
pub fn drained_sync(vram: &mut Vram)
    requires
        old(vram)@.wf(),
    ensures
        final(vram)@.wf(),
        final(vram)@ == old(vram)@.with_counters(
            old(vram)@.counters.count_drained(ResourceClass::Sync),
        ),
{
    reveal(VramCounters::count_drained);
    inc(&mut vram.counters.drained_sync);
}

/// A snapshot of the lifecycle counters.
pub fn vram_counters(vram: &Vram) -> (counters: VramCounters)
    ensures
        counters == vram@.counters,
{
    vram.counters
}

} // verus!

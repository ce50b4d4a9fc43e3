use gpu_buffers::gles::counters::{
    buffer_created, buffer_destroyed, debug_egl_image_sites, drained_egl_image,
    drained_framebuffer, drained_mapping, drained_program, drained_renderbuffer, drained_sync,
    drained_texture, egl_image_created, egl_image_created_at, egl_image_destroyed,
    egl_image_freed_on_import_error, framebuffer_created, framebuffer_destroyed,
    note_egl_image_destroyed, renderbuffer_created, renderbuffer_destroyed,
    render_image_sites, texture_created, texture_destroyed, vram_counters, CleanupResource, ResourceClass, Vram, VramCounters,
};
use gpu_buffers::gles::queue::{channel, Channel};
use std::backtrace::Backtrace;
use std::sync::Arc;

fn zero() -> VramCounters {
    vram_counters(&Vram::new(false))
}

fn all() -> Vec<CleanupResource> {
    vec![
        CleanupResource::Texture(1),
        CleanupResource::FramebufferObject(2),
        CleanupResource::RenderbufferObject(3),
        CleanupResource::EGLImage(4),
        CleanupResource::Mapping(5, 6),
        CleanupResource::Program(7),
        CleanupResource::Sync(8),
    ]
}

#[test]
fn nothing_is_counted_at_first() {
    let counters = zero();
    assert_eq!(counters.textures_created, 0);
    assert_eq!(counters.discarded_sync, 0);
    assert_eq!(counters.egl_images_freed_on_import_error, 0);
    let vram = Vram::new(true);
    assert_eq!(vram_counters(&vram), counters);
    assert!(debug_egl_image_sites(Some(&vram)).is_empty());
}

#[test]
fn every_event_has_its_own_counter() {
    let mut vram = Vram::new(false);
    let mut expected = zero();
    texture_created(&mut vram);
    expected.textures_created += 1;
    assert_eq!(vram_counters(&vram), expected);
    texture_destroyed(&mut vram);
    expected.textures_destroyed += 1;
    assert_eq!(vram_counters(&vram), expected);
    renderbuffer_created(&mut vram);
    expected.renderbuffers_created += 1;
    assert_eq!(vram_counters(&vram), expected);
    renderbuffer_destroyed(&mut vram);
    expected.renderbuffers_destroyed += 1;
    assert_eq!(vram_counters(&vram), expected);
    buffer_created(&mut vram);
    expected.buffers_created += 1;
    assert_eq!(vram_counters(&vram), expected);
    buffer_destroyed(&mut vram);
    expected.buffers_destroyed += 1;
    assert_eq!(vram_counters(&vram), expected);
    framebuffer_created(&mut vram);
    expected.framebuffers_created += 1;
    assert_eq!(vram_counters(&vram), expected);
    framebuffer_destroyed(&mut vram);
    expected.framebuffers_destroyed += 1;
    assert_eq!(vram_counters(&vram), expected);
    egl_image_freed_on_import_error(&mut vram);
    expected.egl_images_freed_on_import_error += 1;
    assert_eq!(vram_counters(&vram), expected);
    drained_texture(&mut vram);
    expected.drained_texture += 1;
    assert_eq!(vram_counters(&vram), expected);
    drained_framebuffer(&mut vram);
    expected.drained_framebuffer += 1;
    assert_eq!(vram_counters(&vram), expected);
    drained_renderbuffer(&mut vram);
    expected.drained_renderbuffer += 1;
    assert_eq!(vram_counters(&vram), expected);
    drained_egl_image(&mut vram);
    expected.drained_egl_image += 1;
    assert_eq!(vram_counters(&vram), expected);
    drained_mapping(&mut vram);
    expected.drained_mapping += 1;
    assert_eq!(vram_counters(&vram), expected);
    drained_program(&mut vram);
    expected.drained_program += 1;
    assert_eq!(vram_counters(&vram), expected);
    drained_sync(&mut vram);
    expected.drained_sync += 1;
    assert_eq!(vram_counters(&vram), expected);
    egl_image_created(&mut vram, 7);
    expected.egl_images_created += 1;
    assert_eq!(vram_counters(&vram), expected);
    egl_image_destroyed(&mut vram, 7);
    expected.egl_images_destroyed += 1;
    assert_eq!(vram_counters(&vram), expected);
    note_egl_image_destroyed(&mut vram, 8);
    expected.egl_images_destroyed += 1;
    assert_eq!(vram_counters(&vram), expected);
}

#[test]
fn counters_grow_by_their_own_events() {
    let mut vram = Vram::new(true);
    for _ in 0..3 {
        texture_created(&mut vram);
    }
    let first = vram_counters(&vram);
    assert_eq!(vram_counters(&vram), first);
    texture_created(&mut vram);
    framebuffer_destroyed(&mut vram);
    framebuffer_destroyed(&mut vram);
    egl_image_created(&mut vram, 1);
    egl_image_freed_on_import_error(&mut vram);
    let mut queue = channel();
    queue.send(CleanupResource::Sync(8), &mut vram).unwrap();
    queue.retire(&mut vram);
    let expected = VramCounters {
        textures_created: 4,
        framebuffers_destroyed: 2,
        egl_images_created: 1,
        egl_images_freed_on_import_error: 1,
        queued_sync: 1,
        discarded_sync: 1,
        ..first
    };
    assert_eq!(first.textures_created, 3);
    assert_eq!(vram_counters(&vram), expected);
}

#[test]
fn every_class_has_its_own_queue_counters() {
    for resource in all() {
        let mut vram = Vram::new(false);
        let mut queue = channel();
        queue.send(resource, &mut vram).unwrap();
        let mut expected = zero();
        match resource.class_of() {
            ResourceClass::Texture => expected.queued_texture = 1,
            ResourceClass::Framebuffer => expected.queued_framebuffer = 1,
            ResourceClass::Renderbuffer => expected.queued_renderbuffer = 1,
            ResourceClass::EglImage => expected.queued_egl_image = 1,
            ResourceClass::Mapping => expected.queued_mapping = 1,
            ResourceClass::Program => expected.queued_program = 1,
            ResourceClass::Sync => expected.queued_sync = 1,
        }
        assert_eq!(vram_counters(&vram), expected);
        assert_eq!(vram.queue_snapshot(resource.class_of()).pending, 1);
        queue.retire(&mut vram);
        match resource.class_of() {
            ResourceClass::Texture => expected.discarded_texture = 1,
            ResourceClass::Framebuffer => expected.discarded_framebuffer = 1,
            ResourceClass::Renderbuffer => expected.discarded_renderbuffer = 1,
            ResourceClass::EglImage => expected.discarded_egl_image = 1,
            ResourceClass::Mapping => expected.discarded_mapping = 1,
            ResourceClass::Program => expected.discarded_program = 1,
            ResourceClass::Sync => expected.discarded_sync = 1,
        }
        assert_eq!(vram_counters(&vram), expected);
        assert_eq!(vram.queue_snapshot(resource.class_of()).pending, 0);
    }
}

#[test]
fn resources_have_their_class() {
    let classes: Vec<ResourceClass> = all().iter().map(|resource| resource.class_of()).collect();
    assert_eq!(
        classes,
        vec![
            ResourceClass::Texture,
            ResourceClass::Framebuffer,
            ResourceClass::Renderbuffer,
            ResourceClass::EglImage,
            ResourceClass::Mapping,
            ResourceClass::Program,
            ResourceClass::Sync,
        ]
    );
}

fn outstanding(vram: &Vram) -> u64 {
    let counters = vram_counters(vram);
    counters.queued_texture - counters.drained_texture - counters.discarded_texture
}

fn pending(vram: &Vram) -> u64 {
    vram.queue_snapshot(ResourceClass::Texture).pending
}

#[test]
fn outstanding_requests_are_those_that_are_pending() {
    let mut vram = Vram::new(false);
    let mut main: Channel<CleanupResource> = channel();
    let mut surface: Channel<CleanupResource> = channel();
    for name in 0..5 {
        main.send(CleanupResource::Texture(name), &mut vram).unwrap();
        surface.send(CleanupResource::Texture(100 + name), &mut vram).unwrap();
        assert_eq!(outstanding(&vram), pending(&vram));
    }
    assert_eq!(pending(&vram), 10);
    let received = surface.try_iter();
    assert_eq!(received.len(), 5);
    for (name, entry) in received.into_iter().enumerate() {
        assert_eq!(*entry.resource(), CleanupResource::Texture(100 + name as u32));
        drained_texture(&mut vram);
        entry.close(&mut vram);
        assert_eq!(outstanding(&vram), pending(&vram));
    }
    let snapshot = vram.queue_snapshot(ResourceClass::Texture);
    assert_eq!((snapshot.submitted, snapshot.oldest, snapshot.pending), (10, 1, 5));
    main.retire(&mut vram);
    assert_eq!((outstanding(&vram), pending(&vram)), (0, 0));
    assert!(main.send(CleanupResource::Texture(9), &mut vram).is_err());
    assert_eq!((outstanding(&vram), pending(&vram)), (0, 0));
    let counters = vram_counters(&vram);
    assert_eq!(
        (counters.queued_texture, counters.drained_texture, counters.discarded_texture),
        (11, 5, 6)
    );
    assert_eq!(vram.queue_snapshot(ResourceClass::Texture).submitted, 11);
    assert_eq!(vram.queue_snapshot(ResourceClass::Program).submitted, 0);
}

#[test]
fn requests_are_received_in_order() {
    let mut vram = Vram::new(false);
    let mut queue = channel();
    for name in 0..3 {
        queue.send(CleanupResource::Program(name), &mut vram).unwrap();
    }
    let first = queue.try_next().unwrap();
    assert_eq!(*first.resource(), CleanupResource::Program(0));
    let rest = queue.try_iter();
    assert_eq!(*rest[0].resource(), CleanupResource::Program(1));
    assert_eq!(*rest[1].resource(), CleanupResource::Program(2));
    assert!(queue.try_next().is_none());
}

#[test]
fn interleaved_sends_and_retirement_account_for_every_request() {
    let mut vram = Vram::new(false);
    let mut queue = channel();
    for name in 0..1000 {
        if name == 500 {
            queue.retire(&mut vram);
        }
        let _ = queue.send(CleanupResource::Texture(name), &mut vram);
    }
    let counters = vram_counters(&vram);
    assert_eq!(counters.queued_texture, 1000);
    assert_eq!(counters.discarded_texture, 1000);
    assert_eq!(pending(&vram), 0);
}

#[test]
fn traced_handles_show_until_they_are_destroyed() {
    let mut vram = Vram::new(true);
    egl_image_created(&mut vram, 10);
    egl_image_created(&mut vram, 20);
    egl_image_created_at(&mut vram, 30, Arc::new(Backtrace::disabled()));
    egl_image_destroyed(&mut vram, 20);
    let mut sites = debug_egl_image_sites(Some(&vram));
    sites.sort();
    assert_eq!(sites.len(), 2);
    assert_eq!((sites[0].0, sites[1].0), (10, 30));
    assert!(!sites[0].1.is_empty());
    assert_eq!(sites[1].1, "disabled backtrace");
    note_egl_image_destroyed(&mut vram, 10);
    note_egl_image_destroyed(&mut vram, 30);
    assert!(debug_egl_image_sites(Some(&vram)).is_empty());
}

#[test]
fn image_sites_are_rendered_without_the_books() {
    let mut vram = Vram::new(true);
    egl_image_created_at(&mut vram, 30, Arc::new(Backtrace::disabled()));
    let sites = vram.image_sites();
    egl_image_destroyed(&mut vram, 30);
    assert_eq!(render_image_sites(&sites), vec![(30, "disabled backtrace".to_string())]);
    assert!(render_image_sites(&vram.image_sites()).is_empty());
}

#[test]
fn untraced_handles_do_not_show() {
    let mut vram = Vram::new(false);
    egl_image_created(&mut vram, 10);
    assert!(debug_egl_image_sites(Some(&vram)).is_empty());
    assert!(debug_egl_image_sites(None).is_empty());
    assert_eq!(vram_counters(&vram).egl_images_created, 1);
}

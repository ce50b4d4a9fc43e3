use gpu_buffers::allocator::allocate::{Allocator, Disposable, Request};
use gpu_buffers::allocator::dmabuf::buffer::{Dmabuf, DmabufBuilder, MAX_PLANES};
use gpu_buffers::allocator::dmabuf::export::{AnyError, AsDmabuf, DmabufAllocator};
use gpu_buffers::allocator::dmabuf::mapping::{
    DmabufMapping, DmabufMappingFailed, DmabufSyncFailed, MapProtection,
};
use gpu_buffers::allocator::dmabuf::registry::{
    debug_dmabuf_clone_sites, render_clone_sites, DmabufRegistry, RegistryModel, WeakDmabuf,
};
use gpu_buffers::allocator::flags::{DmabufFlags, DmabufMappingMode, DmabufSyncFlags};
use gpu_buffers::allocator::format::{
    Buffer, DrmNode, Format, Fourcc, Modifier, NodeKind, Size,
};
use gpu_buffers::allocator::swapchain::chain::Swapchain;
use gpu_buffers::allocator::swapchain::live::LiveSlots;
use std::backtrace::Backtrace;
use std::collections::hash_map::DefaultHasher;
use std::hash::{Hash, Hasher};
use std::sync::Arc;

const FOURCC: Fourcc = Fourcc { code: 0x3432_5258 };

/// A buffer that remembers what it was asked to be.
#[derive(Clone, Debug, PartialEq)]
struct Surface {
    serial: usize,
    size: Size,
    exportable: bool,
}

// Only contracts speak of `dimensions`, `pixel_format` and the like: nothing calls
// them.
impl Buffer for Surface {
    fn dimensions(&self) -> Size {
        unreachable!()
    }

    fn pixel_format(&self) -> Format {
        unreachable!()
    }

    fn size(&self) -> Size {
        self.size
    }

    fn format(&self) -> Format {
        Format { code: FOURCC, modifier: Modifier::linear() }
    }
}

impl Disposable<u32> for Surface {
    fn can_dispose(self, _: RegistryModel<u32>) -> bool {
        unreachable!()
    }

    fn after_dispose(self, _: RegistryModel<u32>) -> RegistryModel<u32> {
        unreachable!()
    }

    fn dispose(self, _: &mut DmabufRegistry<u32>) {}
}

impl AsDmabuf<u32> for Surface {
    type Error = &'static str;

    fn can_export(self, _: RegistryModel<u32>) -> bool {
        unreachable!()
    }

    fn exports(
        self,
        _: RegistryModel<u32>,
        _: RegistryModel<u32>,
        _: Result<Dmabuf<u32>, &'static str>,
    ) -> bool {
        unreachable!()
    }

    fn export(&self, registry: &mut DmabufRegistry<u32>) -> Result<Dmabuf<u32>, &'static str> {
        if !self.exportable {
            return Err("not exportable");
        }
        let mut builder = Dmabuf::builder_from_buffer(self, DmabufFlags { bits: 0 });
        assert!(builder.add_plane(self.serial as u32, 0, 256));
        Ok(builder.build(registry).unwrap())
    }
}

/// An allocator that numbers its buffers, until it has none left.
struct Counting {
    made: usize,
    left: usize,
    exportable: bool,
}

impl Allocator<u32> for Counting {
    type Buffer = Surface;
    type Error = &'static str;

    fn can_create(self, _: RegistryModel<u32>, _: Request) -> bool {
        unreachable!()
    }

    fn creates(
        self,
        _: RegistryModel<u32>,
        _: Request,
        _: Counting,
        _: RegistryModel<u32>,
        _: Result<Surface, &'static str>,
    ) -> bool {
        unreachable!()
    }

    fn create_buffer(
        &mut self,
        _: &mut DmabufRegistry<u32>,
        width: u32,
        height: u32,
        fourcc: Fourcc,
        modifiers: &[Modifier],
    ) -> Result<Surface, &'static str> {
        assert_eq!(fourcc, FOURCC);
        assert_eq!(modifiers, [Modifier::linear()]);
        if self.left == 0 {
            return Err("no memory");
        }
        self.left -= 1;
        self.made += 1;
        Ok(Surface {
            serial: self.made,
            size: Size { w: width as i32, h: height as i32 },
            exportable: self.exportable,
        })
    }
}

const NODE: DrmNode = DrmNode { dev: 57856, kind: NodeKind::Render };

fn builder(w: i32, h: i32) -> DmabufBuilder<u32> {
    Dmabuf::builder(Size { w, h }, FOURCC, Modifier::linear(), DmabufFlags { bits: 0 })
}

fn build(registry: &mut DmabufRegistry<u32>, w: i32, h: i32) -> Dmabuf<u32> {
    let mut builder = builder(w, h);
    assert!(builder.add_plane(3, 0, 4 * w as u32));
    builder.build(registry).unwrap()
}

#[test]
fn a_buffer_needs_a_plane() {
    let mut registry = DmabufRegistry::new(false);
    assert!(builder(8, 8).build(&mut registry).is_none());
    assert_eq!(build(&mut registry, 8, 8).debug_id(), 1);
}

#[test]
fn a_buffer_has_at_most_four_planes() {
    let mut registry = DmabufRegistry::new(false);
    let mut builder = builder(8, 8);
    for plane in 0..MAX_PLANES as u32 {
        assert!(builder.add_plane(10 + plane, 100 * plane, 32 + plane));
    }
    assert!(!builder.add_plane(14, 400, 36));
    let dmabuf = builder.build(&mut registry).unwrap();
    assert_eq!(dmabuf.num_planes(), 4);
    assert_eq!(dmabuf.handles(), vec![&10, &11, &12, &13]);
    assert_eq!(dmabuf.offsets(), vec![0, 100, 200, 300]);
    assert_eq!(dmabuf.strides(), vec![32, 33, 34, 35]);
}

#[test]
fn a_buffer_tells_what_it_was_built_with() {
    let mut registry: DmabufRegistry<u32> = DmabufRegistry::new(false);
    let modifier = Modifier { code: 0x0100_0000_0000_0001 };
    let mut builder =
        Dmabuf::builder(Size { w: 12, h: 34 }, FOURCC, modifier, DmabufFlags { bits: 9 });
    builder.add_plane(3, 0, 48);
    let dmabuf = builder.build(&mut registry).unwrap();
    assert_eq!(dmabuf.size(), Size { w: 12, h: 34 });
    assert_eq!(dmabuf.format(), Format { code: FOURCC, modifier });
    assert_eq!(dmabuf.flags(), DmabufFlags { bits: 9 });
    assert!(dmabuf.y_inverted());
    assert!(dmabuf.has_modifier());
    assert_eq!(dmabuf.debug_created_at(), "");
    let copy = dmabuf.duplicate(&mut registry);
    let other = build(&mut registry, 8, 8);
    assert_ne!(dmabuf.debug_ptr(&registry), 0);
    assert_eq!(copy.debug_ptr(&registry), dmabuf.debug_ptr(&registry));
    assert_ne!(other.debug_ptr(&registry), dmabuf.debug_ptr(&registry));
}

#[test]
fn implicit_and_linear_layouts_are_no_modifiers() {
    let mut registry: DmabufRegistry<u32> = DmabufRegistry::new(false);
    for (modifier, expected) in [
        (Modifier::invalid(), false),
        (Modifier::linear(), false),
        (Modifier { code: 1 }, true),
    ] {
        let mut builder =
            Dmabuf::builder(Size { w: 1, h: 1 }, FOURCC, modifier, DmabufFlags { bits: 6 });
        builder.add_plane(3, 0, 4);
        let dmabuf = builder.build(&mut registry).unwrap();
        assert_eq!(dmabuf.has_modifier(), expected);
        assert!(!dmabuf.y_inverted());
    }
    assert_eq!(Modifier::invalid().code, 0x00ff_ffff_ffff_ffff);
}

#[test]
fn a_builder_can_start_from_a_buffer() {
    let mut registry: DmabufRegistry<u32> = DmabufRegistry::new(false);
    let source = Surface { serial: 1, size: Size { w: 5, h: 6 }, exportable: true };
    let mut builder = Dmabuf::builder_from_buffer(&source, DmabufFlags { bits: 1 });
    builder.add_plane(9, 0, 20);
    let dmabuf = builder.build(&mut registry).unwrap();
    assert_eq!(dmabuf.size(), source.size());
    assert_eq!(dmabuf.format(), source.format());
    assert!(dmabuf.y_inverted());
}

#[test]
fn only_output_sized_buffers_tell_where_they_were_created() {
    let mut registry = DmabufRegistry::new(false);
    assert_ne!(build(&mut registry, 1280, 720).debug_created_at(), "");
    assert_eq!(build(&mut registry, 1280, 719).debug_created_at(), "");
    assert_eq!(build(&mut registry, 1279, 720).debug_created_at(), "");
    let mut wide = builder(i32::MAX, i32::MAX);
    wide.add_plane(3, 0, 1);
    assert_ne!(wide.build(&mut registry).unwrap().debug_created_at(), "");
    let mut negative = builder(i32::MIN, i32::MIN);
    negative.add_plane(3, 0, 1);
    assert_ne!(negative.build(&mut registry).unwrap().debug_created_at(), "");
    let mut mixed = builder(i32::MIN, i32::MAX);
    mixed.add_plane(3, 0, 1);
    assert_eq!(mixed.build(&mut registry).unwrap().debug_created_at(), "");
}

#[test]
fn the_place_of_creation_can_be_given() {
    let mut registry = DmabufRegistry::new(true);
    let site = Arc::new(Backtrace::disabled());
    let mut large = builder(1920, 1080);
    large.add_plane(3, 0, 7680);
    let large = large.build_at(&mut registry, "here <- there".to_string(), site.clone()).unwrap();
    assert_eq!(large.debug_created_at(), "here <- there");
    let mut small = builder(64, 64);
    small.add_plane(3, 0, 256);
    let small = small.build_at(&mut registry, "nowhere".to_string(), site.clone()).unwrap();
    assert_eq!(small.debug_created_at(), "");
    let sites = debug_dmabuf_clone_sites(Some(&registry));
    assert_eq!(sites, vec![(large.debug_id(), "disabled backtrace".to_string())]);
    assert!(builder(1, 1).build_at(&mut registry, String::new(), site).is_none());
}

#[test]
fn a_buffer_lives_as_long_as_its_references() {
    let mut registry = DmabufRegistry::new(false);
    let one = build(&mut registry, 8, 8);
    let weak = one.weak();
    let two = one.duplicate(&mut registry);
    assert_eq!(one.debug_strong_count(&registry), 2);
    one.release(&mut registry);
    assert!(!weak.is_gone(&registry));
    let three = weak.upgrade(&mut registry).unwrap();
    assert!(two == three);
    assert_eq!(three.debug_strong_count(&registry), 2);
    two.release(&mut registry);
    three.release(&mut registry);
    assert!(weak.is_gone(&registry));
    assert!(weak.upgrade(&mut registry).is_none());
}

fn hash_of(weak: &WeakDmabuf) -> u64 {
    let mut hasher = DefaultHasher::new();
    weak.hash(&mut hasher);
    hasher.finish()
}

#[test]
fn references_are_equal_if_they_share_the_buffer() {
    let mut registry = DmabufRegistry::new(true);
    let one = build(&mut registry, 1920, 1080);
    let same = one.duplicate(&mut registry);
    let other = build(&mut registry, 1920, 1080);
    assert!(one == same);
    assert!(one != other);
    assert!(one.weak() == same.weak());
    assert!(one.weak() != other.weak());
    assert_eq!(hash_of(&one.weak()), hash_of(&same.weak()));
    assert_eq!((one.debug_id(), other.debug_id()), (1, 2));
}

#[test]
fn the_last_traced_reference_shows() {
    let mut registry = DmabufRegistry::new(true);
    let one = build(&mut registry, 1920, 1080);
    let small = build(&mut registry, 8, 8);
    let two = one.duplicate(&mut registry);
    assert_eq!(debug_dmabuf_clone_sites(Some(&registry)).len(), 2);
    one.release(&mut registry);
    let sites = debug_dmabuf_clone_sites(Some(&registry));
    assert_eq!(sites.len(), 1);
    assert_eq!(sites[0].0, two.debug_id());
    assert!(!sites[0].1.is_empty());
    assert_eq!(two.debug_strong_count(&registry), 1);
    two.release(&mut registry);
    small.release(&mut registry);
    assert!(debug_dmabuf_clone_sites(Some(&registry)).is_empty());
}

#[test]
fn every_traced_reference_shows() {
    let mut registry = DmabufRegistry::new(true);
    let one = build(&mut registry, 1920, 1080);
    let other = build(&mut registry, 1280, 720);
    let mut copies = Vec::new();
    for _ in 0..3 {
        copies.push(one.duplicate(&mut registry));
    }
    let upgraded = other.weak().upgrade(&mut registry).unwrap();
    let count = |registry: &DmabufRegistry<u32>, dmabuf: &Dmabuf<u32>| {
        let sites = debug_dmabuf_clone_sites(Some(registry));
        sites.iter().filter(|(id, _)| *id == dmabuf.debug_id()).count()
    };
    assert_eq!(count(&registry, &one), one.debug_strong_count(&registry));
    assert_eq!(count(&registry, &other), 2);
    upgraded.release(&mut registry);
    copies.pop().unwrap().release(&mut registry);
    assert_eq!(count(&registry, &one), 3);
    assert_eq!(count(&registry, &other), 1);
}

#[test]
fn sites_are_rendered_without_the_registry() {
    let mut registry = DmabufRegistry::new(true);
    let mut large = builder(1920, 1080);
    large.add_plane(3, 0, 7680);
    let site = Arc::new(Backtrace::disabled());
    let dmabuf = large.build_at(&mut registry, "here".to_string(), site).unwrap();
    let sites = registry.clone_sites();
    dmabuf.release(&mut registry);
    assert_eq!(render_clone_sites(&sites), vec![(1, "disabled backtrace".to_string())]);
    assert!(render_clone_sites(&registry.clone_sites()).is_empty());
}

#[test]
fn gone_buffers_stay_gone() {
    let mut registry = DmabufRegistry::new(false);
    let one = build(&mut registry, 8, 8);
    let weak = one.weak();
    assert!(weak.can_upgrade(&registry));
    one.release(&mut registry);
    let two = build(&mut registry, 8, 8);
    assert_eq!(two.debug_id(), 2);
    let _three = two.duplicate(&mut registry);
    assert!(weak.is_gone(&registry));
    assert!(weak.can_upgrade(&registry));
    assert!(weak.upgrade(&mut registry).is_none());
}

#[test]
fn nothing_is_traced_unless_asked_for() {
    let mut registry = DmabufRegistry::new(false);
    let one = build(&mut registry, 1920, 1080);
    let _two = one.duplicate(&mut registry);
    assert!(debug_dmabuf_clone_sites(Some(&registry)).is_empty());
    assert!(debug_dmabuf_clone_sites::<u32>(None).is_empty());
}

#[test]
fn nodes_are_shared_by_all_references() {
    let mut registry = DmabufRegistry::new(false);
    let one = build(&mut registry, 8, 8);
    let two = one.duplicate(&mut registry);
    let other = build(&mut registry, 8, 8);
    assert_eq!(one.node(&registry), None);
    two.set_node(&mut registry, Some(NODE));
    assert_eq!(one.node(&registry), Some(NODE));
    assert_eq!(other.node(&registry), None);
    one.set_node(&mut registry, None);
    assert_eq!(two.node(&registry), None);
    let mut builder = builder(8, 8);
    builder.add_plane(3, 0, 32);
    builder.set_node(NODE);
    assert_eq!(builder.build(&mut registry).unwrap().node(&registry), Some(NODE));
}

#[test]
fn a_buffer_is_exported_as_itself() {
    let mut registry = DmabufRegistry::new(false);
    let one = build(&mut registry, 8, 8);
    let exported = match one.export(&mut registry) {
        Ok(exported) => exported,
        Err(never) => match never {},
    };
    assert!(exported == one);
    assert_eq!(one.debug_strong_count(&registry), 2);
    exported.dispose(&mut registry);
    assert_eq!(one.debug_strong_count(&registry), 1);
}

#[test]
fn a_wrapped_allocator_provides_exported_buffers() {
    let mut registry = DmabufRegistry::new(false);
    let mut allocator = DmabufAllocator(Counting { made: 0, left: 2, exportable: true });
    let modifiers = [Modifier::linear()];
    let Ok(one) = allocator.create_buffer(&mut registry, 16, 9, FOURCC, &modifiers) else {
        panic!("not created");
    };
    assert_eq!(one.size(), Size { w: 16, h: 9 });
    assert_eq!(one.handles(), vec![&1]);
    assert_eq!(one.debug_strong_count(&registry), 1);
    allocator.0.exportable = false;
    let failed = allocator.create_buffer(&mut registry, 16, 9, FOURCC, &modifiers);
    assert!(matches!(failed, Err(AnyError::Export("not exportable"))));
    let failed = allocator.create_buffer(&mut registry, 16, 9, FOURCC, &modifiers);
    assert!(matches!(failed, Err(AnyError::Create("no memory"))));
}

#[test]
fn wrapping_twice_gives_up_the_inner_reference() {
    let mut registry = DmabufRegistry::new(false);
    let inner = DmabufAllocator(Counting { made: 0, left: 1, exportable: true });
    let mut allocator = DmabufAllocator(inner);
    let modifiers = [Modifier::linear()];
    let Ok(one) = allocator.create_buffer(&mut registry, 16, 9, FOURCC, &modifiers) else {
        panic!("not created");
    };
    assert_eq!(one.debug_strong_count(&registry), 1);
}

#[test]
fn a_swapchain_of_exported_buffers_gives_them_up() {
    let mut live = LiveSlots::new();
    let mut registry = DmabufRegistry::new(false);
    let mut chain: Swapchain<_, u32, ()> = Swapchain::new(
        DmabufAllocator(Counting { made: 0, left: 1, exportable: true }),
        16,
        9,
        FOURCC,
        vec![Modifier::linear()],
        &mut live,
    );
    let Ok(Some(slot)) = chain.acquire(&mut live, &mut registry) else {
        panic!("not acquired");
    };
    let Ok(exported) = slot.export(chain.pool_mut(), &mut live, &mut registry) else {
        panic!("not exported");
    };
    assert_eq!(exported.debug_strong_count(&registry), 3);
    assert!(slot.buffer(chain.pool()) == &exported);
    let weak = exported.weak();
    exported.release(&mut registry);
    slot.release(chain.pool_mut(), &mut live);
    for slot in chain.reset_buffers(&mut live) {
        slot.dispose(&mut registry);
    }
    assert!(weak.is_gone(&registry));
}

#[test]
fn flags_have_their_bits() {
    assert_eq!(
        (DmabufFlags::Y_INVERT, DmabufFlags::INTERLACED, DmabufFlags::BOTTOM_FIRST),
        (1, 2, 4)
    );
    assert_eq!((DmabufMappingMode::READ, DmabufMappingMode::WRITE), (1, 2));
    assert_eq!(
        (
            DmabufSyncFlags::READ,
            DmabufSyncFlags::WRITE,
            DmabufSyncFlags::START,
            DmabufSyncFlags::END
        ),
        (1, 2, 0, 4)
    );
}

#[test]
fn mapping_modes_become_protections() {
    for (bits, read, write) in
        [(0, false, false), (1, true, false), (2, false, true), (3, true, true), (4, false, false)]
    {
        let protection = MapProtection::from(DmabufMappingMode { bits });
        assert_eq!(protection, MapProtection { read, write });
    }
}

#[test]
fn planes_are_mapped_from_their_offset() {
    let mut registry = DmabufRegistry::new(false);
    let mut builder = builder(8, 8);
    builder.add_plane(3, 0, 32);
    builder.add_plane(4, 4096, 32);
    let dmabuf = builder.build(&mut registry).unwrap();
    let mode = DmabufMappingMode { bits: DmabufMappingMode::READ };
    let plan = dmabuf.map_plane(1, mode).ok().unwrap();
    assert_eq!((*plan.fd, plan.offset), (4, 4096));
    assert_eq!(plan.protection, MapProtection { read: true, write: false });
    assert_eq!(plan.length(Ok(10000), Ok(0)), Ok(5904));
    assert_eq!(plan.length(Ok(4096), Ok(0)), Ok(0));
    assert_eq!(plan.length(Err(29), Err(9)), Err(DmabufMappingFailed::Io(29)));
    assert_eq!(plan.length(Ok(10000), Err(9)), Err(DmabufMappingFailed::Io(9)));
    let failed = dmabuf.map_plane(2, mode).err();
    assert_eq!(failed, Some(DmabufMappingFailed::PlaneIndexOutOfBound));
    let mapping = DmabufMapping::mapped(Ok(0x7000), 5904).unwrap();
    assert_eq!((mapping.ptr(), mapping.length()), (0x7000, 5904));
    assert_eq!(DmabufMapping::mapped(Err(12), 5904), Err(DmabufMappingFailed::Io(12)));
}

#[test]
fn planes_are_synchronized_with_the_given_flags() {
    let mut registry = DmabufRegistry::new(false);
    let dmabuf = build(&mut registry, 8, 8);
    let flags = DmabufSyncFlags { bits: DmabufSyncFlags::READ | DmabufSyncFlags::END };
    let plan = dmabuf.sync_plane(0, flags).ok().unwrap();
    assert_eq!(*plan.fd, 3);
    assert_eq!(plan.flags.bits, 5);
    assert_eq!(plan.outcome(Ok(())), Ok(()));
    assert_eq!(plan.outcome(Err(25)), Err(DmabufSyncFailed::Io(25)));
    let failed = dmabuf.sync_plane(1, flags).err();
    assert_eq!(failed, Some(DmabufSyncFailed::PlaneIndexOutOfBound));
}

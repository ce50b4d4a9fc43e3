use gpu_buffers::allocator::allocate::{Allocator, Disposable, Request};
use gpu_buffers::allocator::dmabuf::buffer::Dmabuf;
use gpu_buffers::allocator::dmabuf::export::AsDmabuf;
use gpu_buffers::allocator::dmabuf::registry::{DmabufRegistry, RegistryModel};
use gpu_buffers::allocator::flags::DmabufFlags;
use gpu_buffers::allocator::format::{Buffer, Format, Fourcc, Modifier, Size};
use gpu_buffers::allocator::swapchain::census::{debug_live_slot_sites, debug_live_slots};
use gpu_buffers::allocator::swapchain::chain::Swapchain;
use gpu_buffers::allocator::swapchain::live::LiveSlots;
use gpu_buffers::allocator::swapchain::pool::SLOT_CAP;

const FOURCC: Fourcc = Fourcc { code: 0x3432_5258 };

/// A buffer that remembers what it was asked to be.
#[derive(Clone, Debug, PartialEq)]
struct Surface {
    serial: usize,
    size: Size,
    exportable: bool,
}

// Only contracts speak of `dimensions`, `pixel_format` and the like: nothing calls
// them.
impl Buffer for Surface {
    fn dimensions(&self) -> Size {
        unreachable!()
    }

    fn pixel_format(&self) -> Format {
        unreachable!()
    }

    fn size(&self) -> Size {
        self.size
    }

    fn format(&self) -> Format {
        Format { code: FOURCC, modifier: Modifier::linear() }
    }
}

impl Disposable<u32> for Surface {
    fn can_dispose(self, _: RegistryModel<u32>) -> bool {
        unreachable!()
    }

    fn after_dispose(self, _: RegistryModel<u32>) -> RegistryModel<u32> {
        unreachable!()
    }

    fn dispose(self, _: &mut DmabufRegistry<u32>) {}
}

impl AsDmabuf<u32> for Surface {
    type Error = &'static str;

    fn can_export(self, _: RegistryModel<u32>) -> bool {
        unreachable!()
    }

    fn exports(
        self,
        _: RegistryModel<u32>,
        _: RegistryModel<u32>,
        _: Result<Dmabuf<u32>, &'static str>,
    ) -> bool {
        unreachable!()
    }

    fn export(&self, registry: &mut DmabufRegistry<u32>) -> Result<Dmabuf<u32>, &'static str> {
        if !self.exportable {
            return Err("not exportable");
        }
        let mut builder = Dmabuf::builder_from_buffer(self, DmabufFlags { bits: 0 });
        assert!(builder.add_plane(self.serial as u32, 0, 256));
        Ok(builder.build(registry).unwrap())
    }
}

/// An allocator that numbers its buffers, until it has none left.
struct Counting {
    made: usize,
    left: usize,
    exportable: bool,
}

impl Allocator<u32> for Counting {
    type Buffer = Surface;
    type Error = &'static str;

    fn can_create(self, _: RegistryModel<u32>, _: Request) -> bool {
        unreachable!()
    }

    fn creates(
        self,
        _: RegistryModel<u32>,
        _: Request,
        _: Counting,
        _: RegistryModel<u32>,
        _: Result<Surface, &'static str>,
    ) -> bool {
        unreachable!()
    }

    fn create_buffer(
        &mut self,
        _: &mut DmabufRegistry<u32>,
        width: u32,
        height: u32,
        fourcc: Fourcc,
        modifiers: &[Modifier],
    ) -> Result<Surface, &'static str> {
        assert_eq!(fourcc, FOURCC);
        assert_eq!(modifiers, [Modifier::linear()]);
        if self.left == 0 {
            return Err("no memory");
        }
        self.left -= 1;
        self.made += 1;
        Ok(Surface {
            serial: self.made,
            size: Size { w: width as i32, h: height as i32 },
            exportable: self.exportable,
        })
    }
}

type Chain = Swapchain<Counting, u32, &'static str>;

fn chain(live: &mut LiveSlots) -> Chain {
    Swapchain::new(
        Counting { made: 0, left: 100, exportable: true },
        64,
        32,
        FOURCC,
        vec![Modifier::linear()],
        live,
    )
}

fn world() -> (LiveSlots, DmabufRegistry<u32>) {
    (LiveSlots::new(), DmabufRegistry::new(false))
}

#[test]
fn a_chain_hands_out_its_slots_in_order() {
    let (mut live, mut registry) = world();
    let mut chain = chain(&mut live);
    let mut held = Vec::new();
    for serial in 1..=SLOT_CAP {
        let slot = chain.acquire(&mut live, &mut registry).unwrap().unwrap();
        assert_eq!(slot.buffer(chain.pool()).serial, serial);
        assert_eq!(slot.age(chain.pool()), 0);
        held.push(slot);
    }
    assert!(chain.acquire(&mut live, &mut registry).unwrap().is_none());
    assert_eq!(chain.allocator.made, 4);
    let second = held.remove(1);
    assert!(second.release(chain.pool_mut(), &mut live).is_none());
    let again = chain.acquire(&mut live, &mut registry).unwrap().unwrap();
    assert_eq!(again.buffer(chain.pool()).serial, 2);
    assert_eq!(chain.allocator.made, 4);
}

#[test]
fn a_failed_allocation_leaves_the_slot_free() {
    let (mut live, mut registry) = world();
    let mut chain = chain(&mut live);
    chain.allocator.left = 0;
    assert_eq!(chain.acquire(&mut live, &mut registry).unwrap_err(), "no memory");
    assert_eq!(debug_live_slots(Some(&live)), "live_slots total=0 {}");
    chain.allocator.left = 1;
    let slot = chain.acquire(&mut live, &mut registry).unwrap().unwrap();
    assert_eq!(slot.buffer(chain.pool()).serial, 1);
    assert!(chain.acquire(&mut live, &mut registry).is_err());
}

#[test]
fn userdata_is_preserved_when_a_slot_is_used_again() {
    let (mut live, mut registry) = world();
    let mut chain = chain(&mut live);
    let slot = chain.acquire(&mut live, &mut registry).unwrap().unwrap();
    assert!(slot.userdata(chain.pool()).get(1).is_none());
    assert!(slot.insert_if_missing(chain.pool_mut(), 1, "framebuffer 7"));
    assert!(!slot.insert_if_missing(chain.pool_mut(), 1, "framebuffer 8"));
    assert!(slot.insert_if_missing(chain.pool_mut(), 2, "fence 9"));
    slot.release(chain.pool_mut(), &mut live);
    let slot = chain.acquire(&mut live, &mut registry).unwrap().unwrap();
    assert_eq!(slot.userdata(chain.pool()).get(1), Some(&"framebuffer 7"));
    assert_eq!(slot.userdata(chain.pool()).get(2), Some(&"fence 9"));
    assert_eq!(slot.userdata(chain.pool()).get(3), None);
}

#[test]
fn ages_count_the_submissions_since() {
    let (mut live, mut registry) = world();
    let mut chain = chain(&mut live);
    let first = chain.acquire(&mut live, &mut registry).unwrap().unwrap();
    let second = chain.acquire(&mut live, &mut registry).unwrap().unwrap();
    assert!(chain.submitted(&first, &mut live).is_empty());
    assert_eq!((first.age(chain.pool()), second.age(chain.pool())), (1, 0));
    chain.submitted(&second, &mut live);
    assert_eq!((first.age(chain.pool()), second.age(chain.pool())), (2, 1));
    chain.submitted(&second, &mut live);
    assert_eq!((first.age(chain.pool()), second.age(chain.pool())), (3, 1));
    chain.submitted(&first, &mut live);
    assert_eq!((first.age(chain.pool()), second.age(chain.pool())), (1, 2));
}

#[test]
fn a_slot_whose_age_overflows_is_replaced() {
    let (mut live, mut registry) = world();
    let mut chain = chain(&mut live);
    let idle = chain.acquire(&mut live, &mut registry).unwrap().unwrap();
    let busy = chain.acquire(&mut live, &mut registry).unwrap().unwrap();
    chain.submitted(&idle, &mut live);
    idle.release(chain.pool_mut(), &mut live);
    for _ in 0..254 {
        assert!(chain.submitted(&busy, &mut live).is_empty());
    }
    assert_eq!(debug_live_slots(Some(&live)), "live_slots total=2 {64x32×2 [?,?]}");
    assert_eq!(chain.submitted(&busy, &mut live).len(), 1);
    assert_eq!(debug_live_slots(Some(&live)), "live_slots total=1 {64x32×1 [?]}");
    let fresh = chain.acquire(&mut live, &mut registry).unwrap().unwrap();
    assert_eq!(fresh.buffer(chain.pool()).serial, 3);
}

#[test]
fn a_held_slot_whose_age_overflows_lives_on() {
    let (mut live, mut registry) = world();
    let mut chain = chain(&mut live);
    let idle = chain.acquire(&mut live, &mut registry).unwrap().unwrap();
    let busy = chain.acquire(&mut live, &mut registry).unwrap().unwrap();
    chain.submitted(&idle, &mut live);
    for _ in 0..255 {
        assert!(chain.submitted(&busy, &mut live).is_empty());
    }
    assert_eq!(idle.age(chain.pool()), 255);
    assert_eq!(idle.buffer(chain.pool()).serial, 1);
    assert_eq!(debug_live_slots(Some(&live)), "live_slots total=2 {64x32×2 [?,?]}");
    assert!(idle.release(chain.pool_mut(), &mut live).is_some());
    assert_eq!(debug_live_slots(Some(&live)), "live_slots total=1 {64x32×1 [?]}");
}

#[test]
fn submitting_an_old_slot_changes_nothing() {
    let (mut live, mut registry) = world();
    let mut chain = chain(&mut live);
    let old = chain.acquire(&mut live, &mut registry).unwrap().unwrap();
    assert_eq!(chain.resize(128, 64, &mut live).len(), 3);
    let new = chain.acquire(&mut live, &mut registry).unwrap().unwrap();
    chain.submitted(&new, &mut live);
    assert!(chain.submitted(&old, &mut live).is_empty());
    assert_eq!((old.age(chain.pool()), new.age(chain.pool())), (0, 1));
}

#[test]
fn resizing_replaces_the_buffers_and_leaves_held_ones() {
    let (mut live, mut registry) = world();
    let mut chain = chain(&mut live);
    let held = chain.acquire(&mut live, &mut registry).unwrap().unwrap();
    let free = chain.acquire(&mut live, &mut registry).unwrap().unwrap();
    held.insert_if_missing(chain.pool_mut(), 1, "kept");
    free.release(chain.pool_mut(), &mut live);
    assert!(chain.resize(64, 32, &mut live).is_empty());
    assert_eq!(chain.dimensions(), (64, 32));
    let dropped = chain.resize(128, 64, &mut live);
    assert_eq!(chain.dimensions(), (128, 64));
    assert_eq!(dropped.len(), 3);
    for slot in dropped {
        slot.dispose(&mut registry);
    }
    assert_eq!(debug_live_slots(Some(&live)), "live_slots total=1 {64x32×1 [?]}");
    assert_eq!(held.buffer(chain.pool()).size, Size { w: 64, h: 32 });
    assert_eq!(held.userdata(chain.pool()).get(1), Some(&"kept"));
    let new = chain.acquire(&mut live, &mut registry).unwrap().unwrap();
    assert_eq!(new.buffer(chain.pool()).size, Size { w: 128, h: 64 });
    assert_eq!(
        debug_live_slots(Some(&live)),
        "live_slots total=2 {64x32×1 [?]; 128x64×1 [?]}"
    );
    assert!(held.release(chain.pool_mut(), &mut live).is_some());
    assert_eq!(debug_live_slots(Some(&live)), "live_slots total=1 {128x64×1 [?]}");
}

#[test]
fn resetting_the_buffers_replaces_all_of_them() {
    let (mut live, mut registry) = world();
    let mut chain = chain(&mut live);
    let slot = chain.acquire(&mut live, &mut registry).unwrap().unwrap();
    slot.release(chain.pool_mut(), &mut live);
    assert_eq!(chain.reset_buffers(&mut live).len(), 4);
    let slot = chain.acquire(&mut live, &mut registry).unwrap().unwrap();
    assert_eq!(slot.buffer(chain.pool()).serial, 2);
}

#[test]
fn resetting_the_ages_replaces_held_slots_only() {
    let (mut live, mut registry) = world();
    let mut chain = chain(&mut live);
    let held = chain.acquire(&mut live, &mut registry).unwrap().unwrap();
    let free = chain.acquire(&mut live, &mut registry).unwrap().unwrap();
    chain.submitted(&free, &mut live);
    chain.submitted(&held, &mut live);
    free.release(chain.pool_mut(), &mut live);
    assert!(chain.reset_buffer_ages(&mut live).is_empty());
    assert_eq!(held.age(chain.pool()), 1);
    let fresh = chain.acquire(&mut live, &mut registry).unwrap().unwrap();
    assert_eq!(fresh.buffer(chain.pool()).serial, 3);
    assert_eq!(fresh.age(chain.pool()), 0);
    let kept = chain.acquire(&mut live, &mut registry).unwrap().unwrap();
    assert_eq!(kept.buffer(chain.pool()).serial, 2);
    assert_eq!(kept.age(chain.pool()), 0);
}

#[test]
fn a_slot_is_exported_once() {
    let (mut live, mut registry) = world();
    let mut chain = chain(&mut live);
    let slot = chain.acquire(&mut live, &mut registry).unwrap().unwrap();
    assert_eq!(chain.debug_slot_dmabuf_ids(), vec![None; 4]);
    let one = slot.export(chain.pool_mut(), &mut live, &mut registry).unwrap();
    let two = slot.export(chain.pool_mut(), &mut live, &mut registry).unwrap();
    assert!(one == two);
    assert_eq!(one.debug_id(), 1);
    assert_eq!(one.debug_strong_count(&registry), 3);
    assert_eq!(chain.debug_slot_dmabuf_ids(), vec![Some(1), None, None, None]);
    assert_eq!(debug_live_slots(Some(&live)), "live_slots total=1 {64x32×1 [1]}");
    assert!(slot.userdata(chain.pool()).dmabuf().unwrap() == &one);
    let weak = one.weak();
    one.release(&mut registry);
    two.release(&mut registry);
    assert!(!weak.is_gone(&registry));
    slot.release(chain.pool_mut(), &mut live);
    for slot in chain.reset_buffers(&mut live) {
        slot.dispose(&mut registry);
    }
    assert!(weak.is_gone(&registry));
}

#[test]
fn a_buffer_that_the_user_keeps_is_exported() {
    let (mut live, mut registry) = world();
    let mut chain = chain(&mut live);
    let slot = chain.acquire(&mut live, &mut registry).unwrap().unwrap();
    let surface = Surface { serial: 77, size: Size { w: 1, h: 1 }, exportable: true };
    let mine = surface.export(&mut registry).unwrap();
    let other = surface.export(&mut registry).unwrap();
    let copy = mine.duplicate(&mut registry);
    assert!(slot.insert_dmabuf_if_missing(chain.pool_mut(), mine).is_ok());
    assert_eq!(chain.debug_slot_dmabuf_ids(), vec![Some(1), None, None, None]);
    let back = slot.insert_dmabuf_if_missing(chain.pool_mut(), other);
    assert_eq!(back.err().unwrap().debug_id(), 2);
    let exported = slot.export(chain.pool_mut(), &mut live, &mut registry).unwrap();
    assert!(exported == copy);
    assert_eq!(exported.handles(), vec![&77]);
}

#[test]
fn resizing_twice_is_resizing_once() {
    let (mut live, mut registry) = world();
    let mut chain = chain(&mut live);
    chain.resize(128, 64, &mut live);
    let slot = chain.acquire(&mut live, &mut registry).unwrap().unwrap();
    chain.submitted(&slot, &mut live);
    assert!(chain.resize(128, 64, &mut live).is_empty());
    assert_eq!(slot.age(chain.pool()), 1);
    slot.release(chain.pool_mut(), &mut live);
    let again = chain.acquire(&mut live, &mut registry).unwrap().unwrap();
    assert_eq!(again.age(chain.pool()), 1);
    assert_eq!(chain.allocator.made, 1);
}

#[test]
fn a_reset_chain_allocates_every_slot_anew() {
    let (mut live, mut registry) = world();
    let mut chain = chain(&mut live);
    let mut held = Vec::new();
    for _ in 0..SLOT_CAP {
        held.push(chain.acquire(&mut live, &mut registry).unwrap().unwrap());
    }
    held[0].export(chain.pool_mut(), &mut live, &mut registry).unwrap();
    assert!(chain.reset_buffers(&mut live).is_empty());
    assert_eq!(chain.debug_slot_dmabuf_ids(), vec![None; 4]);
    for serial in 5..=8 {
        let slot = chain.acquire(&mut live, &mut registry).unwrap().unwrap();
        assert_eq!(slot.buffer(chain.pool()).serial, serial);
        assert_eq!(slot.age(chain.pool()), 0);
    }
    for slot in held {
        assert!(slot.release(chain.pool_mut(), &mut live).is_some());
    }
    assert!(chain.acquire(&mut live, &mut registry).unwrap().is_none());
}

#[test]
fn a_failed_export_changes_nothing() {
    let (mut live, mut registry) = world();
    let mut chain = chain(&mut live);
    chain.allocator.exportable = false;
    let slot = chain.acquire(&mut live, &mut registry).unwrap().unwrap();
    let failed = slot.export(chain.pool_mut(), &mut live, &mut registry);
    assert_eq!(failed.err(), Some("not exportable"));
    assert!(slot.userdata(chain.pool()).dmabuf().is_none());
    assert_eq!(debug_live_slots(Some(&live)), "live_slots total=1 {64x32×1 [?]}");
}

#[test]
fn a_retired_chain_keeps_what_is_held() {
    let (mut live, mut registry) = world();
    let mut chain = chain(&mut live);
    let held = chain.acquire(&mut live, &mut registry).unwrap().unwrap();
    let free = chain.acquire(&mut live, &mut registry).unwrap().unwrap();
    free.release(chain.pool_mut(), &mut live);
    let (allocator, mut pool, dropped) = chain.retire(&mut live);
    assert_eq!(allocator.made, 2);
    assert_eq!(dropped.len(), 3);
    assert_eq!(debug_live_slots(Some(&live)), "live_slots total=1 {64x32×1 [?]}");
    assert_eq!(held.buffer(&pool).serial, 1);
    assert!(held.release(&mut pool, &mut live).is_some());
    assert_eq!(debug_live_slots(Some(&live)), "live_slots total=0 {}");
}

#[test]
fn a_chain_tells_its_format() {
    let (mut live, _) = world();
    let chain = chain(&mut live);
    assert_eq!(chain.format(), FOURCC);
    assert_eq!(chain.modifiers(), [Modifier::linear()]);
}

#[test]
fn acquired_slots_tell_where() {
    let (mut live, mut registry) = world();
    let mut chain = chain(&mut live);
    let one = chain.acquire(&mut live, &mut registry).unwrap();
    let two = chain.acquire(&mut live, &mut registry).unwrap();
    assert!(one.is_some() && two.is_some());
    let report = debug_live_slot_sites(Some(&live));
    assert!(report.starts_with("2× ") || report.starts_with("1× "));
    assert!(report.len() > 4);
}

fn furnish(chain: &mut Chain, live: &mut LiveSlots, w: i32, h: i32, site: &str) {
    let surface = Surface { serial: 100, size: Size { w, h }, exportable: true };
    let result = chain.settle(live, Ok(surface), site.to_string());
    assert!(result.unwrap().is_some());
}

#[test]
fn the_size_report_groups_and_sorts() {
    let (mut live, mut registry) = world();
    let mut chains: Vec<Chain> = (0..4).map(|_| chain(&mut live)).collect();
    for k in 0..4 {
        for i in 0..SLOT_CAP {
            let wide = if i % 2 == 0 { 3840 } else { 1920 };
            let high = if k % 2 == 0 { 2160 } else { 1080 };
            furnish(&mut chains[k], &mut live, wide, high, "site");
        }
    }
    assert_eq!(
        debug_live_slots(Some(&live)),
        "live_slots total=16 {1920x1080×4 [?,?,?,?]; 1920x2160×4 [?,?,?,?]; \
         3840x1080×4 [?,?,?,?]; 3840x2160×4 [?,?,?,?]}"
    );
    // Names are ordered as text: "10" before "2".
    let mut exported = chain(&mut live);
    for _ in 0..SLOT_CAP {
        let slot = exported.acquire(&mut live, &mut registry).unwrap().unwrap();
        for _ in 0..5 {
            let surface = Surface { serial: 1, size: Size { w: 1, h: 1 }, exportable: true };
            surface.export(&mut registry).unwrap();
        }
        slot.export(exported.pool_mut(), &mut live, &mut registry).unwrap();
    }
    let report = debug_live_slots(Some(&live));
    assert!(report.starts_with("live_slots total=20 {64x32×4 [12,18,24,6]; 1920x1080"));
}

#[test]
fn sizes_with_a_sign_are_shown_and_sorted() {
    let (mut live, _) = world();
    let mut chain = chain(&mut live);
    furnish(&mut chain, &mut live, 0, i32::MAX, "a");
    furnish(&mut chain, &mut live, i32::MIN, -7, "a");
    furnish(&mut chain, &mut live, i32::MIN, -8, "a");
    assert_eq!(
        debug_live_slots(Some(&live)),
        "live_slots total=3 {-2147483648x-8×1 [?]; -2147483648x-7×1 [?]; 0x2147483647×1 [?]}"
    );
}

#[test]
fn the_site_report_counts_and_ranks() {
    let (mut live, _) = world();
    assert_eq!(debug_live_slot_sites(Some(&live)), "");
    let mut one = chain(&mut live);
    let mut two = chain(&mut live);
    for site in ["b <- c", "z", "a", "b <- c"] {
        furnish(&mut one, &mut live, 8, 8, site);
    }
    for site in ["z", "é", "b", "z"] {
        furnish(&mut two, &mut live, 8, 8, site);
    }
    assert_eq!(
        debug_live_slot_sites(Some(&live)),
        "3× z | 2× b <- c | 1× a | 1× b | 1× é"
    );
}

#[test]
fn a_failed_allocation_settles_nothing() {
    let (mut live, _) = world();
    let mut chain = chain(&mut live);
    let failed = chain.settle(&mut live, Err("no memory"), "here".to_string());
    assert_eq!(failed.err(), Some("no memory"));
    assert_eq!(chain.pool().first_free(), Some(0));
    assert_eq!(debug_live_slot_sites(Some(&live)), "");
    furnish(&mut chain, &mut live, 3, 4, "here");
    assert_eq!(chain.pool().first_free(), Some(1));
    assert_eq!(debug_live_slot_sites(Some(&live)), "1× here");
}

#[test]
fn submitting_a_slot_of_another_chain_changes_nothing() {
    let (mut live, mut registry) = world();
    let mut one = chain(&mut live);
    let mut two = chain(&mut live);
    let slot = one.acquire(&mut live, &mut registry).unwrap().unwrap();
    let own = two.acquire(&mut live, &mut registry).unwrap().unwrap();
    two.submitted(&own, &mut live);
    assert!(two.submitted(&slot, &mut live).is_empty());
    assert_eq!((slot.age(one.pool()), own.age(two.pool())), (0, 1));
}

#[test]
fn unreadable_slots_are_reported_as_such() {
    assert_eq!(debug_live_slots(None), "live_slots: <poisoned>");
    assert_eq!(debug_live_slot_sites(None), "live_slot_sites: <poisoned>");
}

#[test]
fn the_first_free_slot_is_found() {
    let (mut live, mut registry) = world();
    let mut chain = chain(&mut live);
    assert_eq!(chain.pool().first_free(), Some(0));
    let one = chain.acquire(&mut live, &mut registry).unwrap().unwrap();
    assert_eq!(chain.pool().first_free(), Some(1));
    one.release(chain.pool_mut(), &mut live);
    assert_eq!(chain.pool().first_free(), Some(0));
    for _ in 0..4 {
        assert!(chain.acquire(&mut live, &mut registry).unwrap().is_some());
    }
    assert_eq!(chain.pool().first_free(), None);
}

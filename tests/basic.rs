use rel4_kernel::basic::{CPtr, KernelPtr, PAddr, PRegion, Region, VPtr, VRegion, PPTR_BASE_OFFSET};

#[test]
fn kernel_pointer_and_physical_address_convert() {
    let p = PAddr::new(0x8020_0000);
    let k = p.to_pptr();
    assert_eq!(k.raw(), 0xFFFF_FFC0_8020_0000);
    assert_eq!(k.to_paddr(), p);
    assert_eq!(KernelPtr::new(PPTR_BASE_OFFSET).to_paddr().raw(), 0);
}

#[test]
fn pointer_accessors() {
    let k = KernelPtr::new(0xFFFF_FFC0_0000_1000);
    assert_eq!(k.get_ptr(), 0xFFFF_FFC0_0000_1000);
    assert_eq!(k.get_mut_ptr(), 0xFFFF_FFC0_0000_1000);
    assert_eq!(k.try_get_mut_ref(), Some(0xFFFF_FFC0_0000_1000));
    assert_eq!(KernelPtr::null().try_get_mut_ref(), None);
    assert!(VPtr::null().is_null());
    assert!(!VPtr::new(4).is_null());
    assert_eq!(CPtr::new(9).raw(), 9);
    assert!(CPtr::null().is_null());
    assert!(PAddr::null().is_null());
}

#[test]
fn regions_convert_both_ways() {
    let r = Region::new(KernelPtr::new(0xFFFF_FFC0_0000_0000), KernelPtr::new(0xFFFF_FFC0_0010_0000));
    assert!(!r.is_empty());
    let p = r.to_pregion();
    assert_eq!(p.start.raw(), 0);
    assert_eq!(p.end.raw(), 0x10_0000);
    let back = p.to_region();
    assert_eq!(back, r);
    assert!(Region::empty().is_empty());
    assert!(PRegion::empty().is_empty());
    assert!(PRegion::new(PAddr::new(5), PAddr::new(5)).is_empty());
    let v = VRegion::new(VPtr::new(1), VPtr::new(2));
    assert_eq!(v.end.raw(), 2);
}

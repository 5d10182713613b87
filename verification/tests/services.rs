use touchhle::frameworks::skynest::{CallbackCall, State as Skynest, ASSET_ERROR_STATUS};
use touchhle::frameworks::uikit::ui_launch_delegate::State as LaunchDelegate;
use touchhle::frameworks::vulkan::{
    create_handle_result, enumerate_instance_extension_properties,
    enumerate_instance_layer_properties, enumerate_single, extension_properties_bytes,
    instance_version, queue_family_properties_bytes, VK_ERROR_INITIALIZATION_FAILED,
    VK_INCOMPLETE, VK_SUCCESS,
};
use touchhle::libc::codesign::{csops, CS_ADHOC, CS_VALID};
use touchhle::libc::errno::{EFAULT, EINVAL, ERANGE, ESRCH};
use touchhle::libc::pwd::{getpwuid_r, PasswdOutcome};
use touchhle::mem::Mem;
use touchhle::objc::objects::{nil, ObjC};

#[test]
fn skynest_reports_login_time_and_unavailable_assets() {
    let mut s = Skynest::new();
    assert_eq!(s.identity_login_by_method(), None);
    s.identity_set_callbacks(0x1000, 0x2000);
    assert_eq!(s.identity_login_by_method(), Some(CallbackCall::NoArgs(0x1000)));
    assert_eq!(s.identity_time(Some(1_700_000_000)), Some(CallbackCall::WithI32(0x2000, 1_700_000_000)));
    assert_eq!(s.identity_time(Some(u64::MAX)), Some(CallbackCall::WithI32(0x2000, i32::MAX)));
    assert_eq!(s.identity_time(None), Some(CallbackCall::WithI32(0x2000, 0)));
    assert!(s.identity_is_service_available());
    s.assets_set_callbacks(0, 0x3000);
    assert_eq!(s.assets_load(1, 2, 3, 4), None);
    assert_eq!(
        s.assets_load_metadata(1, 2, 4),
        Some(CallbackCall::MetadataError {
            callback: 0x3000,
            name: 4,
            status: ASSET_ERROR_STATUS,
            context: (1, 2)
        })
    );
    assert_eq!(
        s.assets_load_all_metadata(5, 6),
        Some(CallbackCall::MetadataError { callback: 0x3000, name: 0, status: 503, context: (5, 6) })
    );
}

#[test]
fn launch_delegate_is_made_once() {
    let mut objc = ObjC::new();
    let mut mem = Mem::new();
    let mut d = LaunchDelegate::new();
    let first = d.shared_instance(&mut objc, 0x40, &mut mem);
    assert_ne!(first, nil);
    assert_eq!(d.shared_instance(&mut objc, 0x40, &mut mem), first);
    assert_eq!(objc.get_refcount(first), 1);
}

#[test]
fn vulkan_enumerations() {
    assert_eq!(instance_version(), (1 << 22) | (3 << 12));
    let e = enumerate_instance_extension_properties(false, 0, true);
    assert_eq!((e.result, e.count, e.entries.len()), (VK_SUCCESS, Some(3), 0));
    let e = enumerate_instance_extension_properties(false, 2, false);
    assert_eq!((e.result, e.count, e.entries.len()), (VK_INCOMPLETE, Some(3), 2));
    assert_eq!(&e.entries[1][..20], b"VK_EXT_metal_surface");
    assert_eq!(e.entries[1][20], 0);
    assert_eq!(&e.entries[1][256..], &[1, 0, 0, 0]);
    let e = enumerate_instance_extension_properties(true, 5, false);
    assert_eq!((e.result, e.count), (VK_ERROR_INITIALIZATION_FAILED, None));
    let l = enumerate_instance_layer_properties(false, 9, false);
    assert_eq!((l.result, l.count, l.entries.len()), (VK_SUCCESS, Some(1), 1));
    assert_eq!(l.entries[0].len(), 520);
    assert_eq!(&l.entries[0][..8], b"MoltenVK");
    assert_eq!(&l.entries[0][264..299], b"RadekHLE Vulkan compatibility layer");
    let long = [b'x'; 300];
    let p = extension_properties_bytes(&long);
    assert_eq!(p[254], b'x');
    assert_eq!(p[255], 0);
    let q = queue_family_properties_bytes();
    assert_eq!(q, vec![1, 0, 0, 0, 1, 0, 0, 0, 64, 0, 0, 0, 1, 0, 0, 0, 1, 0, 0, 0, 1, 0, 0, 0]);
    let d = enumerate_single(false, 0, false);
    assert_eq!((d.result, d.count, d.write_entry), (VK_SUCCESS, Some(1), false));
    assert!(enumerate_single(false, 4, false).write_entry);
    assert_eq!(create_handle_result(true), (VK_ERROR_INITIALIZATION_FAILED, false));
    assert_eq!(create_handle_result(false), (VK_SUCCESS, true));
}

#[test]
fn csops_status_of_own_process() {
    let ok = csops(0, 42, 0, false, 4);
    assert_eq!((ok.result, ok.errno, ok.status_written), (0, 0, Some(CS_VALID | CS_ADHOC)));
    assert_eq!(csops(42, 42, 0, false, 8).status_written, Some(3));
    assert_eq!(csops(7, 42, 0, false, 4).errno, ESRCH);
    assert_eq!(csops(0, 42, 1, false, 4).errno, EINVAL);
    assert_eq!(csops(0, 42, 0, false, 3).errno, EINVAL);
    assert_eq!(csops(0, 42, 0, true, 4).errno, EFAULT);
    assert_eq!(csops(0, 42, 0, true, 4).result, -1);
}

#[test]
fn getpwuid_r_lays_out_the_mobile_user() {
    match getpwuid_r(501, false, 0x1001, 64, false, true) {
        PasswdOutcome::Found { strings, record } => {
            let addrs: Vec<u32> = strings.iter().map(|s| s.0).collect();
            assert_eq!(addrs, vec![0x1004, 0x100c, 0x1010, 0x101c, 0x1028]);
            assert_eq!(strings[3].1, b"/var/mobile\0".to_vec());
            assert_eq!(record.pw_dir, 0x101c);
            assert_eq!(record.pw_uid, 501);
            assert_eq!(record.pw_gid, 501);
        }
        other => panic!("unexpected {:?}", other),
    }
    // 3 + 7, 1 + 2, 2 + 12, 12 and 8 bytes: 47 from 0x1001.
    assert_eq!(getpwuid_r(501, false, 0x1001, 46, false, true), PasswdOutcome::TooSmall);
    assert!(matches!(
        getpwuid_r(501, false, 0x1001, 47, false, true),
        PasswdOutcome::Found { .. }
    ));
    assert_eq!(getpwuid_r(0, false, 0x1000, 64, false, true), PasswdOutcome::NotFound);
    assert_eq!(getpwuid_r(501, true, 0x1000, 64, false, true), PasswdOutcome::Error(EINVAL));
    assert_eq!(getpwuid_r(501, false, 0x1000, 64, false, false), PasswdOutcome::Error(EFAULT));
    assert_eq!(getpwuid_r(501, false, 0xffff_fffc, 0, false, true), PasswdOutcome::Error(ERANGE));
}

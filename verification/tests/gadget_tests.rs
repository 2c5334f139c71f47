use zero_usb_storage::gadget::{Gadget, IconKind, ImageInfo};

fn disk_a(read_only: Option<bool>, as_cdrom: Option<bool>) -> Gadget {
    Gadget::MassStorage(ImageInfo {
        name: "Disk A".to_string(),
        path: "/img/a.img".to_string(),
        icon: IconKind::Resource("drive".to_string()),
        read_only,
        as_cdrom,
    })
}

#[test]
fn module_names_are_fixed_per_role() {
    assert_eq!(disk_a(None, None).module_name(), "g_mass_storage");
    assert_eq!(Gadget::Serial.module_name(), "g_serial");
    assert_eq!(Gadget::Ethernet.module_name(), "g_ether");
}

#[test]
fn read_only_image_arguments() {
    let args = disk_a(Some(true), Some(false)).module_arguments();
    assert_eq!(args, vec!["file=/img/a.img".to_string(), "ro=1".to_string()]);
}

#[test]
fn cdrom_image_arguments() {
    let args = disk_a(Some(false), Some(true)).module_arguments();
    assert_eq!(
        args,
        vec![
            "file=/img/a.img".to_string(),
            "cdrom=y".to_string(),
            "ro=0".to_string()
        ]
    );
}

#[test]
fn absent_flags_default_to_false() {
    let args = disk_a(None, None).module_arguments();
    assert_eq!(args, vec!["file=/img/a.img".to_string(), "ro=0".to_string()]);
}

#[test]
fn no_cdrom_token_without_the_flag() {
    for ro in [None, Some(false), Some(true)] {
        let args = disk_a(ro, Some(false)).module_arguments();
        assert!(args.iter().all(|a| !a.starts_with("cdrom=")));
        let args = disk_a(ro, None).module_arguments();
        assert!(args.iter().all(|a| !a.starts_with("cdrom=")));
    }
}

#[test]
fn cdrom_token_sits_between_file_and_ro() {
    let args = disk_a(Some(true), Some(true)).module_arguments();
    assert_eq!(args.len(), 3);
    assert!(args[0].starts_with("file="));
    assert_eq!(args[1], "cdrom=y");
    assert_eq!(args[2], "ro=1");
    assert_eq!(args.iter().filter(|a| *a == "cdrom=y").count(), 1);
}

#[test]
fn ro_token_is_always_last_and_unique() {
    for (ro, expect) in [(None, "ro=0"), (Some(false), "ro=0"), (Some(true), "ro=1")] {
        let args = disk_a(ro, None).module_arguments();
        assert_eq!(args.last().unwrap(), expect);
        assert_eq!(args.iter().filter(|a| a.starts_with("ro=")).count(), 1);
    }
}

#[test]
fn display_names_follow_the_configuration() {
    assert_eq!(disk_a(None, None).display_name(), "Disk A");
    assert_eq!(Gadget::Serial.display_name(), "Serial");
    assert_eq!(Gadget::Ethernet.display_name(), "Ethernet");
}

#[test]
fn plain_roles_take_no_arguments() {
    assert!(Gadget::Serial.module_arguments().is_empty());
    assert!(Gadget::Ethernet.module_arguments().is_empty());
}

use zero_usb_storage::gadget::{Gadget, IconKind};
use zero_usb_storage::loader::GadgetLoader;
use zero_usb_storage::parse::{parse_config, ParseError};

#[test]
fn well_formed_file_keeps_count_and_order() {
    let text = "MassStorage:\n  name: Disk A\n  path: /img/a.img\n  icon: Resource(drive)\n  read_only: true\n  as_cdrom: false\nSerial: {}\nEthernet: {}";
    let gadgets = parse_config(text).unwrap();
    assert_eq!(gadgets.len(), 3);
    match &gadgets[0] {
        Gadget::MassStorage(img) => {
            assert_eq!(img.name, "Disk A");
            assert_eq!(img.path, "/img/a.img");
            match &img.icon {
                IconKind::Resource(n) => assert_eq!(n, "drive"),
                _ => panic!("wrong icon kind"),
            }
            assert_eq!(img.read_only, Some(true));
            assert_eq!(img.as_cdrom, Some(false));
        }
        _ => panic!("first record is not the image"),
    }
    assert!(matches!(gadgets[1], Gadget::Serial));
    assert!(matches!(gadgets[2], Gadget::Ethernet));
}

#[test]
fn empty_text_is_an_empty_list() {
    assert!(parse_config("").unwrap().is_empty());
}

#[test]
fn blank_lines_between_records_are_ignored() {
    let text = "Serial: {}\n\nMassStorage:\n  name: A\n  path: /a\n  icon: File(/i.png)\n\nEthernet: {}";
    let gadgets = parse_config(text).unwrap();
    assert_eq!(gadgets.len(), 3);
    match &gadgets[1] {
        Gadget::MassStorage(img) => {
            assert_eq!(img.name, "A");
            assert_eq!(img.path, "/a");
            match &img.icon {
                IconKind::File(p) => assert_eq!(p, "/i.png"),
                _ => panic!("wrong icon kind"),
            }
            assert_eq!(img.read_only, None);
            assert_eq!(img.as_cdrom, None);
        }
        _ => panic!("second record is not the image"),
    }
}

#[test]
fn block_closed_by_end_of_file() {
    let text = "MassStorage:\n  name: A\n  path: /a\n  icon: Resource(drive)";
    let gadgets = parse_config(text).unwrap();
    assert_eq!(gadgets.len(), 1);
}

#[test]
fn unknown_record_is_rejected() {
    assert_eq!(parse_config("Floppy: {}").unwrap_err(), ParseError::UnknownRecord);
}

#[test]
fn indent_outside_a_block_is_rejected() {
    assert_eq!(parse_config("  name: A").unwrap_err(), ParseError::UnexpectedIndent);
}

#[test]
fn unknown_field_is_rejected() {
    let text = "MassStorage:\n  label: A";
    assert_eq!(parse_config(text).unwrap_err(), ParseError::UnknownField);
}

#[test]
fn duplicate_field_is_rejected() {
    let text = "MassStorage:\n  name: A\n  name: B";
    assert_eq!(parse_config(text).unwrap_err(), ParseError::DuplicateField);
}

#[test]
fn empty_name_is_rejected() {
    let text = "MassStorage:\n  name: ";
    assert_eq!(parse_config(text).unwrap_err(), ParseError::EmptyField);
}

#[test]
fn bad_boolean_is_rejected() {
    let text = "MassStorage:\n  name: A\n  read_only: yes";
    assert_eq!(parse_config(text).unwrap_err(), ParseError::BadBool);
}

#[test]
fn bad_icon_is_rejected() {
    let text = "MassStorage:\n  name: A\n  icon: Theme(drive)";
    assert_eq!(parse_config(text).unwrap_err(), ParseError::BadIcon);
}

#[test]
fn incomplete_record_is_rejected() {
    let text = "MassStorage:\n  name: A\n  path: /a";
    assert_eq!(parse_config(text).unwrap_err(), ParseError::IncompleteRecord);
}

#[test]
fn error_descriptions_are_distinct() {
    let errors = [
        ParseError::UnexpectedIndent,
        ParseError::UnknownRecord,
        ParseError::UnknownField,
        ParseError::DuplicateField,
        ParseError::EmptyField,
        ParseError::BadBool,
        ParseError::BadIcon,
        ParseError::IncompleteRecord,
    ];
    for (i, a) in errors.iter().enumerate() {
        for (j, b) in errors.iter().enumerate() {
            if i != j {
                assert_ne!(a.describe(), b.describe());
            }
        }
    }
}

#[test]
fn missing_file_loads_as_empty_list() {
    let loader = GadgetLoader::new();
    let (gadgets, diagnostic) = loader.load_from_text(None);
    assert!(gadgets.is_empty());
    assert!(diagnostic.is_none());
}

#[test]
fn invalid_structure_loads_as_empty_list() {
    let loader = GadgetLoader::new();
    let (gadgets, diagnostic) = loader.load_from_text(Some("not a gadget list"));
    assert!(gadgets.is_empty());
    assert_eq!(diagnostic, Some(ParseError::UnknownRecord));
}

#[test]
fn valid_text_loads_all_records() {
    let loader = GadgetLoader::new();
    let (gadgets, diagnostic) = loader.load_from_text(Some("Serial: {}\nEthernet: {}"));
    assert_eq!(gadgets.len(), 2);
    assert!(diagnostic.is_none());
}

#[test]
fn trailing_newline_is_harmless() {
    let gadgets = parse_config("Serial: {}\n").unwrap();
    assert_eq!(gadgets.len(), 1);
    assert!(matches!(gadgets[0], Gadget::Serial));
}

#[test]
fn newlines_only_is_an_empty_list() {
    assert!(parse_config("\n\n\n").unwrap().is_empty());
}

#[test]
fn loaded_read_only_image_builds_its_arguments() {
    let text = "MassStorage:\n  name: Disk A\n  path: /img/a.img\n  icon: Resource(drive)\n  read_only: true\n  as_cdrom: false";
    let loader = GadgetLoader::new();
    let (gadgets, diagnostic) = loader.load_from_text(Some(text));
    assert!(diagnostic.is_none());
    assert_eq!(gadgets.len(), 1);
    assert_eq!(
        gadgets[0].module_arguments(),
        vec!["file=/img/a.img".to_string(), "ro=1".to_string()]
    );
}

#[test]
fn loaded_cdrom_image_builds_its_arguments() {
    let text = "MassStorage:\n  name: Disk A\n  path: /img/a.img\n  icon: Resource(drive)\n  read_only: false\n  as_cdrom: true";
    let loader = GadgetLoader::new();
    let (gadgets, diagnostic) = loader.load_from_text(Some(text));
    assert!(diagnostic.is_none());
    assert_eq!(gadgets.len(), 1);
    assert_eq!(
        gadgets[0].module_arguments(),
        vec![
            "file=/img/a.img".to_string(),
            "cdrom=y".to_string(),
            "ro=0".to_string()
        ]
    );
}

#[test]
fn config_path_resolution() {
    let loader = GadgetLoader::new();
    assert_eq!(
        loader.resolve_config_path(Some("/etc/gadgets.yaml".to_string()), Some("/home")),
        "/etc/gadgets.yaml"
    );
    assert_eq!(
        loader.resolve_config_path(None, Some("/home/pi")),
        "/home/pi/gadgets.yaml"
    );
    assert_eq!(loader.resolve_config_path(None, None), "");
}

use zero_usb_storage::gadget::{Gadget, IconKind, ImageInfo};
use zero_usb_storage::invoker::{
    classify_outcome, plan_activation, ActivationPlan, ActivationReport, SpawnOutcome,
};

fn disk() -> Gadget {
    Gadget::MassStorage(ImageInfo {
        name: "Disk".to_string(),
        path: "/images/disk.img".to_string(),
        icon: IconKind::Resource("drive".to_string()),
        read_only: None,
        as_cdrom: Some(true),
    })
}

#[test]
fn unset_script_plans_nothing() {
    let plan = plan_activation(None, &disk());
    assert!(matches!(plan, ActivationPlan::NotConfigured));
}

#[test]
fn not_configured_report_names_the_setting() {
    assert_eq!(
        ActivationReport::NotConfigured.message(),
        "Missing MODPROBE_SCRIPT"
    );
}

#[test]
fn configured_script_runs_module_name_then_flags() {
    let plan = plan_activation(Some("/usr/local/bin/modprobe.sh".to_string()), &disk());
    match plan {
        ActivationPlan::Run { program, arguments } => {
            assert_eq!(program, "/usr/local/bin/modprobe.sh");
            assert_eq!(
                arguments,
                vec![
                    "g_mass_storage".to_string(),
                    "file=/images/disk.img".to_string(),
                    "cdrom=y".to_string(),
                    "ro=0".to_string()
                ]
            );
        }
        _ => panic!("expected a run plan"),
    }
}

#[test]
fn serial_plan_has_only_the_module_name() {
    let plan = plan_activation(Some("/bin/load".to_string()), &Gadget::Serial);
    match plan {
        ActivationPlan::Run { arguments, .. } => {
            assert_eq!(arguments, vec!["g_serial".to_string()]);
        }
        _ => panic!("expected a run plan"),
    }
}

#[test]
fn success_is_reported_as_mounted() {
    let report = classify_outcome(
        vec!["load".to_string()],
        SpawnOutcome::Finished { success: true, stdout: b"ok".to_vec(), stderr: Vec::new() },
    );
    assert!(matches!(report, ActivationReport::Mounted));
    assert_eq!(report.message(), "Mounted image");
}

#[test]
fn failure_carries_decoded_streams() {
    let report = classify_outcome(
        vec!["load".to_string()],
        SpawnOutcome::Finished {
            success: false,
            stdout: b"loading g_serial".to_vec(),
            stderr: b"module not found".to_vec(),
        },
    );
    match &report {
        ActivationReport::CommandFailed { stderr, stdout } => {
            assert_eq!(stderr, "module not found");
            assert_eq!(stdout, "loading g_serial");
        }
        _ => panic!("expected a command failure"),
    }
    assert_eq!(
        report.message(),
        "Could not mount image: \n\nError:\n module not found\n\nOutput: loading g_serial"
    );
}

#[test]
fn undecodable_streams_fall_back_to_the_placeholder() {
    let report = classify_outcome(
        vec!["load".to_string()],
        SpawnOutcome::Finished {
            success: false,
            stdout: vec![0xff, 0xfe, 0x00],
            stderr: vec![0xc3, 0x28],
        },
    );
    match &report {
        ActivationReport::CommandFailed { stderr, stdout } => {
            assert_eq!(stderr, "Binary Output");
            assert_eq!(stdout, "Binary Output");
        }
        _ => panic!("expected a command failure"),
    }
}

#[test]
fn spawn_failure_keeps_the_attempted_command_line() {
    let report = classify_outcome(
        vec!["/bin/load".to_string(), "g_serial".to_string()],
        SpawnOutcome::CouldNotStart,
    );
    match &report {
        ActivationReport::CouldNotStart { command } => {
            assert_eq!(command, &vec!["/bin/load".to_string(), "g_serial".to_string()]);
        }
        _ => panic!("expected a spawn failure"),
    }
    assert_eq!(
        report.message(),
        "Could not run execution command: /bin/load g_serial"
    );
}

use omp_relayd::service::{
    parent_directory, plan_service, render_service_unit, render_unit, service, systemctl_failed, systemctl_not_run,
    systemd_quote_path, unit_removed, ServiceAction, ServiceError, ServiceStep, SERVICE_UNIT,
};

const UNIT_PATH: &str = "/home/alex/.config/systemd/user/omp-relayd.service";

fn systemctl(args: &[&'static str], optional: bool) -> ServiceStep {
    ServiceStep::Systemctl { args: args.to_vec(), optional }
}

fn say(line: &str) -> ServiceStep {
    ServiceStep::Say(line.to_owned())
}

fn install(no_enable: bool) -> ServiceAction {
    ServiceAction::Install { bind: "10.90.0.2:43118".to_owned(), no_enable }
}

#[test]
fn service_unit_quotes_paths_and_applies_sandboxing() {
    let unit = render_service_unit(
        Some("/opt/OMP Relay/omp-relayd"),
        Some("/home/alex/%relay/registry.json"),
        "10.90.0.2:43118",
    )
    .expect("unit renders");
    assert!(unit.contains("ExecStart=\"/opt/OMP Relay/omp-relayd\""));
    assert!(unit.contains("--registry \"/home/alex/%%relay/registry.json\""));
    assert!(unit.contains("ReadWritePaths=\"/home/alex/%%relay\""));
    assert!(unit.contains("ProtectSystem=strict"));
    assert!(unit.contains("ProtectHome=read-only"));
    assert!(unit.contains("UMask=0077"));
}

#[test]
fn the_unit_is_written_out_in_full() {
    let unit = render_unit(Some("/bin/relay"), Some("/r/x.json"), "/r", "[::1]:1").unwrap();
    let expected = "[Unit]
Description=OMP authenticated AI provider relay
After=network-online.target
Wants=network-online.target

[Service]
Type=simple
ExecStart=\"/bin/relay\" --registry \"/r/x.json\" serve --bind [::1]:1
Restart=on-failure
RestartSec=2
UMask=0077
NoNewPrivileges=true
PrivateTmp=true
ProtectSystem=strict
ProtectHome=read-only
ReadWritePaths=\"/r\"

[Install]
WantedBy=default.target
";
    assert_eq!(unit, expected);
    assert_eq!(render_service_unit(Some("/bin/relay"), Some("/r/x.json"), "[::1]:1").unwrap(), expected);
}

#[test]
fn a_registry_without_a_parent_is_in_the_present_directory() {
    let unit = render_service_unit(Some("r"), Some("/"), "b").unwrap();
    assert!(unit.contains("ReadWritePaths=\".\""));
    let unit = render_service_unit(Some("r"), Some("x.json"), "b").unwrap();
    assert!(unit.contains("ReadWritePaths=\"\""));
}

#[test]
fn special_characters_are_escaped() {
    assert_eq!(systemd_quote_path(Some("a\\b\"c%d$e f")).unwrap(), "\"a\\\\b\\\"c%%d$$e f\"");
    assert_eq!(systemd_quote_path(Some("")).unwrap(), "\"\"");
    assert_eq!(systemd_quote_path(Some("é")).unwrap(), "\"é\"");
    assert_ne!(systemd_quote_path(Some("a\\\"")), systemd_quote_path(Some("a\\\\\"")));
}

#[test]
fn some_paths_cannot_stand_in_a_unit() {
    assert_eq!(systemd_quote_path(None), Err(ServiceError::NotUtf8));
    assert_eq!(systemd_quote_path(Some("a\nb")), Err(ServiceError::ControlCharacter));
    assert_eq!(systemd_quote_path(Some("\u{85}")), Err(ServiceError::ControlCharacter));
    assert_eq!(ServiceError::NotUtf8.message(), "systemd service paths must be valid UTF-8");
    assert_eq!(
        ServiceError::ControlCharacter.message(),
        "systemd service paths cannot contain control characters"
    );
    assert_eq!(render_service_unit(None, Some("a\n"), "b"), Err(ServiceError::NotUtf8));
    assert_eq!(render_service_unit(Some("\t"), None, "b"), Err(ServiceError::ControlCharacter));
    assert_eq!(render_service_unit(Some("x"), None, "b"), Err(ServiceError::NotUtf8));
    assert_eq!(render_unit(Some("x"), Some("y"), "\n", "b"), Err(ServiceError::ControlCharacter));
}

#[test]
fn installing_writes_enables_and_starts() {
    let unit = render_service_unit(Some("/bin/relay"), Some("/r/x.json"), "10.90.0.2:43118").unwrap();
    let written = format!("Wrote {UNIT_PATH}");
    assert_eq!(
        service(true, &install(false), Some("/bin/relay"), Some("/r/x.json"), UNIT_PATH),
        vec![
            ServiceStep::PrepareRegistry,
            ServiceStep::WriteUnit(unit.clone()),
            say(&written),
            systemctl(&["daemon-reload"], false),
            systemctl(&["enable", "--now", SERVICE_UNIT], false),
            say("Enabled and started omp-relayd.service."),
        ]
    );
    assert_eq!(
        plan_service(true, &install(true), Ok(unit.clone()), UNIT_PATH),
        vec![
            ServiceStep::PrepareRegistry,
            ServiceStep::WriteUnit(unit),
            say(&written),
            systemctl(&["daemon-reload"], false),
            say("Service unit written; not enabled (--no-enable)."),
        ]
    );
}

#[test]
fn installing_gives_up_on_a_bad_path() {
    assert_eq!(
        service(true, &install(false), Some("/bin/relay"), None, UNIT_PATH),
        vec![
            ServiceStep::PrepareRegistry,
            ServiceStep::Fail("systemd service paths must be valid UTF-8".to_owned()),
        ]
    );
}

#[test]
fn the_other_actions_are_planned() {
    assert_eq!(
        service(true, &ServiceAction::Uninstall, None, None, UNIT_PATH),
        vec![
            systemctl(&["disable", "--now", SERVICE_UNIT], true),
            ServiceStep::RemoveUnit,
            systemctl(&["daemon-reload"], false),
        ]
    );
    assert_eq!(
        service(true, &ServiceAction::Status, None, None, UNIT_PATH),
        vec![systemctl(&["status", "--no-pager", SERVICE_UNIT], false)]
    );
    assert_eq!(SERVICE_UNIT, "omp-relayd.service");
}

#[test]
fn services_need_linux() {
    for action in [install(false), ServiceAction::Uninstall, ServiceAction::Status] {
        assert_eq!(
            service(false, &action, Some("a"), Some("b"), UNIT_PATH),
            vec![ServiceStep::Fail(
                "service management is supported only on Linux with systemd".to_owned()
            )]
        );
    }
}

#[test]
fn what_was_done_is_told() {
    assert_eq!(unit_removed(true, "/u"), "Removed /u");
    assert_eq!(unit_removed(false, "/u"), "No unit file at /u");
    assert_eq!(
        systemctl_failed(&vec!["enable", "--now", "x"]),
        "systemctl enable --now x failed"
    );
    assert_eq!(systemctl_failed(&vec!["daemon-reload"]), "systemctl daemon-reload failed");
    assert_eq!(systemctl_failed(&vec![]), "systemctl  failed");
    assert_eq!(systemctl_not_run("no"), "failed to run systemctl: no");
}

#[test]
fn the_directory_of_the_registry_is_writable() {
    for (registry, directory) in [
        ("/r/x.json", "/r"),
        ("a/b/c", "a/b"),
        ("/a//b/c", "/a//b"),
        ("./", ""),
        ("./.", ""),
        ("/.", "."),
        ("/a/b/", "/a"),
        ("../up/x.json", "../up"),
        ("/registry.json", "/"),
        ("/home/a:b/registry.json", "/home/a:b"),
        ("/home/a/b:c", "/home/a"),
        ("registry.json", ""),
        ("./x.json", "."),
        ("/c/./x.json", "/c"),
        ("/c/.//x.json", "/c"),
        ("/./x.json", "/"),
        ("/c/.x", "/c"),
        ("/c/x/.", "/c"),
        ("a/..", "a"),
        ("..", ""),
        (".", ""),
        ("./", ""),
        ("./.", ""),
        ("/.", "."),
        ("/./", "."),
        ("", "."),
    ] {
        let unit = render_service_unit(Some("r"), Some(registry), "b").unwrap();
        let line = format!("\nReadWritePaths=\"{directory}\"\n");
        assert!(unit.contains(&line), "{registry}");
    }
}

#[test]
fn parents_are_those_of_unix_paths() {
    let mut paths = vec![String::new()];
    let mut from = 0;
    for _ in 0..6 {
        let to = paths.len();
        for k in from..to {
            for c in ['/', '.', 'a', '\\', ':'] {
                let path = format!("{}{c}", paths[k]);
                paths.push(path);
            }
        }
        from = to;
    }
    for path in paths {
        let expected = std::path::Path::new(&path).parent().map(|parent| parent.to_str().unwrap());
        assert_eq!(parent_directory(&path).as_deref(), expected, "{path}");
    }
}

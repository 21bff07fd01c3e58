use face_auth::cli::{appends, command, status_report, user_to_delete, whoami, Command};
use face_auth::scalar::Scalar;
use face_auth::install::{
    accepts, already_message, backup_path, backup_service, classify_service, confirms, creatable_service,
    detect_display_manager, display_manager_user, enough_models, insert_pam_line, install_layout, is_recommended,
    is_skipped, new_service_file, profile_file, prompt, remove_pam_lines, secure_path, selinux_plan, skipped_message,
    sudoers_file, survey, uninstall_plan, video_group, GroupAction, Removal, SelinuxAction, Service, ServiceAction,
};

const LINE: &str = "auth    sufficient  pam_face.so";

#[test]
fn layouts() {
    let usual = install_layout(false);
    assert_eq!(
        usual.required_files(),
        vec!["/usr/libexec/face-authd", "/usr/libexec/face-enroll", "/usr/lib64/security/pam_face.so"]
    );
    assert_eq!(usual.model_dir(), "/usr/share/face-auth/models");
    assert_eq!(usual.selinux_source(), "/usr/share/face-auth/selinux/face_auth.te");
    assert_eq!(usual.pam_line(), LINE);
    let atomic = install_layout(true);
    assert_eq!(atomic.pam_line(), "auth    sufficient  /var/lib/face-auth/pam_face.so");
    assert!(enough_models(2));
    assert!(!enough_models(1));
}

#[test]
fn services_are_sorted_out() {
    assert!(is_recommended("sudo"));
    assert!(!is_recommended("sshd"));
    assert!(is_skipped("system-auth"));
    assert!(!is_skipped("sudo"));
    let file = |t: &str| Some(t.to_string());
    assert_eq!(classify_service("crond", &file("auth x")), ServiceAction::Skip);
    assert_eq!(classify_service("sudo", &None), ServiceAction::Ignore);
    assert_eq!(classify_service("sudo", &file("account x\n")), ServiceAction::Ignore);
    assert_eq!(
        classify_service("sudo", &file("auth sufficient pam_face.so\n")),
        ServiceAction::Already
    );
    assert_eq!(classify_service("sudo", &file("auth x\n")), ServiceAction::Ask { recommended: true });
    assert_eq!(classify_service("sshd", &file("auth x\n")), ServiceAction::Ask { recommended: false });
}

#[test]
fn module_goes_in_front_of_the_authentication() {
    let old = "#%PAM-1.0\n\nauth required pam_env.so\naccount required pam_unix.so\n";
    let new = insert_pam_line(old, LINE);
    assert_eq!(
        new,
        "#%PAM-1.0\n\nauth    sufficient  pam_face.so\nauth required pam_env.so\naccount required pam_unix.so\n"
    );
    assert_eq!(remove_pam_lines(&new), Some(old.to_string()));
    assert_eq!(remove_pam_lines(old), None);
    assert_eq!(insert_pam_line("account x\n", LINE), format!("{LINE}\naccount x\n"));
}

#[test]
fn new_services() {
    assert_eq!(creatable_service(), "polkit-1");
    let file = new_service_file(LINE);
    assert!(file.starts_with("#%PAM-1.0\n# Created by face-auth installer\nauth    sufficient"));
    assert_eq!(file.lines().count(), 7);
}

#[test]
fn questions_and_answers() {
    assert_eq!(
        prompt("sudo", true),
        "  Enable for \x1b[1msudo\x1b[0m (/etc/pam.d/sudo)? [Y/n] "
    );
    assert_eq!(prompt("sshd", false), "  Enable for sshd (/etc/pam.d/sshd)? [y/N] ");
    assert!(accepts("\n", true));
    assert!(!accepts("\n", false));
    assert!(accepts("Yes\n", false));
    assert!(!accepts("no\n", true));
    assert!(confirms(" Y\n"));
    assert!(!confirms("yes\n"));
    assert!(!confirms(""));
}

#[test]
fn survey_counts() {
    let service = |n: &str, c: Option<&str>| Service {
        name: n.to_string(),
        content: c.map(|t| t.to_string()),
    };
    let r = survey(&vec![
        service("sudo", Some("auth x\n")),
        service("crond", Some("auth x\n")),
        service("su", Some("auth sufficient pam_face.so\n")),
        service("other", None),
        service("login", None),
    ]);
    assert_eq!((r.already, r.skipped), (1, 2));
    assert_eq!(r.actions[0], ServiceAction::Ask { recommended: true });
    assert_eq!(r.actions[4], ServiceAction::Ignore);
    assert_eq!(already_message(0), None);
    assert_eq!(already_message(2).unwrap(), "2 service(s) already configured.");
    assert_eq!(
        skipped_message(3).unwrap(),
        "3 system service(s) skipped (no local camera access)."
    );
}

#[test]
fn backups() {
    assert_eq!(backup_path("/b", "sudo"), "/b/sudo.bak");
    assert_eq!(backup_service("sudo.bak"), Some("sudo".to_string()));
    assert_eq!(backup_service("sudo"), None);
    assert_eq!(backup_service(".bak"), None);
}

#[test]
fn display_managers() {
    assert_eq!(detect_display_manager(true, true, false), "sddm");
    assert_eq!(detect_display_manager(false, false, true), "lightdm");
    assert_eq!(detect_display_manager(false, false, false), "unknown");
    assert_eq!(display_manager_user("unknown"), "sddm");
    assert_eq!(display_manager_user("gdm"), "gdm");
    assert_eq!(video_group(false, ""), GroupAction::NoSuchUser);
    assert_eq!(video_group(true, "sddm : sddm video\n"), GroupAction::AlreadyMember);
    assert_eq!(video_group(true, "sddm : sddm\n"), GroupAction::Add);
}

#[test]
fn policy_is_asked_about() {
    let mode = |t: &str| Some(t.to_string());
    assert_eq!(selinux_plan(&None, true), SelinuxAction::NotAvailable);
    assert_eq!(selinux_plan(&mode("Disabled\n"), true), SelinuxAction::NotActive);
    assert_eq!(selinux_plan(&mode("Enforcing\n"), false), SelinuxAction::NoSource);
    assert_eq!(selinux_plan(&mode("Permissive\n"), true), SelinuxAction::Ask);
}

#[test]
fn search_paths() {
    let text = "Sudo version 1.9\nDefault value for \"secure_path\": \"/a:/b\"\n";
    // The value runs from the first quotation mark to the last.
    assert_eq!(secure_path(&Some(text.to_string())), "secure_path\": \"/a:/b");
    assert_eq!(secure_path(&None), "/usr/local/sbin:/usr/local/bin:/usr/sbin:/usr/bin");
    assert_eq!(
        secure_path(&Some("nothing".to_string())),
        "/usr/local/sbin:/usr/local/bin:/usr/sbin:/usr/bin"
    );
    assert_eq!(
        sudoers_file("/a", "/x"),
        "# Added by face-auth installer\nDefaults secure_path=\"/a:/x\"\n"
    );
    assert_eq!(
        profile_file("/x"),
        "# Added by face-auth installer\nexport PATH=\"$PATH:/x\"\n"
    );
}

fn asked(args: &[&str]) -> Command {
    command(&args.iter().map(|a| a.to_string()).collect())
}

#[test]
fn arguments() {
    assert_eq!(asked(&["face-enroll"]), Command::Enroll);
    assert_eq!(asked(&["face-enroll", "--debug"]), Command::EnrollDebug);
    assert_eq!(asked(&["x", "--debug", "--test-auth"]), Command::TestAuthDebug);
    assert_eq!(asked(&["x", "--test-auth"]), Command::TestAuth);
    assert_eq!(asked(&["x", "--install", "-h"]), Command::Help);
    assert_eq!(asked(&["x", "--uninstall", "--install"]), Command::Install);
    assert_eq!(asked(&["x", "--status", "--delete"]), Command::Delete);
    assert_eq!(asked(&["x", "--check-config"]), Command::CheckConfig);
    assert_eq!(asked(&["x", "--unknown"]), Command::Enroll);
}

#[test]
fn user_of_the_command() {
    let name = |t: &str| Some(t.to_string());
    assert_eq!(whoami(name("ann"), name("root"), None), "ann");
    assert_eq!(whoami(None, name("bob"), name("eve")), "bob");
    assert_eq!(whoami(None, None, name("eve")), "eve");
    assert_eq!(whoami(None, None, None), "unknown");
}

#[test]
fn status_of_an_enrollment() {
    assert_eq!(status_report("ann", None, None, "/d"), "User: ann\nEnrolled: no\n");
    let current = face_auth::enrollment::ENROLLMENT_VERSION;
    assert_eq!(
        status_report("ann", Some((9, current)), None, "/d"),
        format!("User: ann\nEnrolled: yes\nEmbeddings: 9\nFormat version: {current} (current: {current})\nPath: /d\n")
    );
    let old = status_report("ann", Some((9, 0)), None, "/d");
    assert!(old.ends_with(
        "\n\n\x1b[33mWarning: enrollment uses old format (v0).\x1b[0m\nRe-enroll for best accuracy: sudo face-enroll\n"
    ));
}

#[test]
fn status_shows_the_grade() {
    let quality = Scalar::from_bits(0.75f32.to_bits());
    let report = status_report("ann", Some((3, 2)), Some(quality), "/d");
    assert!(report.starts_with("User: ann\nEnrolled: yes\nEmbeddings: 3\nQuality: Good\nFormat"));
}

#[test]
fn user_is_named_behind_the_flag() {
    let args = |list: &[&str]| list.iter().map(|a| a.to_string()).collect::<Vec<String>>();
    let me = || "me".to_string();
    assert_eq!(user_to_delete(&args(&["face-enroll", "--delete", "--user", "alice"]), me()), "alice");
    assert_eq!(user_to_delete(&args(&["face-enroll", "--delete", "--user"]), me()), "me");
    assert_eq!(user_to_delete(&args(&["face-enroll", "--delete"]), me()), "me");
    assert!(appends(&args(&["face-enroll", "--append"])));
    assert!(!appends(&args(&["face-enroll"])));
}

#[test]
fn uninstalling_restores_the_files() {
    let file = |n: &str, c: &str| Service { name: n.to_string(), content: Some(c.to_string()) };
    let old = "#%PAM-1.0\r\nauth required pam_unix.so";
    let services = vec![
        file("login", "auth x\n"),
        file("polkit-1", &new_service_file(LINE)),
        file("su", &insert_pam_line("auth x\n", LINE)),
        file("sudo", &insert_pam_line(old, LINE)),
    ];
    let plan = uninstall_plan(&services, &vec![file("sudo.bak", old), file("notes", "x")]);
    assert!(matches!(plan[0], Removal::Keep));
    match &plan[1] {
        Removal::Write(t) => {
            assert!(!t.contains("pam_face.so"));
            assert_eq!(t.lines().count(), 6);
        }
        _ => panic!("the created file keeps the module"),
    }
    match &plan[2] {
        Removal::Write(t) => assert_eq!(t, "auth x\n"),
        _ => panic!("the module stays"),
    }
    assert!(matches!(plan[3], Removal::Restore));
    let tainted = uninstall_plan(&vec![file("sudo", old)], &vec![file("sudo.bak", &format!("{LINE}\n"))]);
    assert!(matches!(&tainted[0], Removal::Write(t) if t == "\n"));
}

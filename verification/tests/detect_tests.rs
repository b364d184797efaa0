use updet::detect::{
    detect_available_managers, detect_relevant_managers, detect_system, distro_family,
    is_executable, probe_for, probe_order, snap_available, Probe,
};
use updet::manager::PackageManager;
use updet::os_release::parse_os_release;
use PackageManager::{Apk, Apt, Dnf, Emerge, Flatpak, Pacman, Paru, Snap, Xbps, Yay, Yum, Zypper};

fn strings(v: &[&str]) -> Vec<String> {
    v.iter().map(|s| s.to_string()).collect()
}

#[test]
fn names_of_managers() {
    let expected = [
        (Apt, "apt"),
        (Dnf, "dnf"),
        (Yum, "yum"),
        (Pacman, "pacman"),
        (Yay, "yay"),
        (Paru, "paru"),
        (Zypper, "zypper"),
        (Apk, "apk"),
        (Xbps, "xbps-install"),
        (Emerge, "emerge"),
        (Flatpak, "flatpak"),
        (Snap, "snap"),
    ];
    for (m, n) in expected {
        assert_eq!(m.name(), n);
    }
}

#[test]
fn os_release_of_arch() {
    let r = parse_os_release("NAME=\"Arch Linux\"\nPRETTY_NAME=\"Arch Linux\"\nID=arch\nBUILD_ID=rolling\n");
    assert_eq!(r.distro_id, "arch");
    assert!(r.distro_like.is_empty());
}

#[test]
fn os_release_quotes_case_and_like() {
    let r = parse_os_release("ID=\"Pop\"\nID_LIKE=\"Ubuntu  debian\"\nVERSION_ID=22.04");
    assert_eq!(r.distro_id, "pop");
    assert_eq!(r.distro_like, strings(&["ubuntu", "debian"]));
}

#[test]
fn os_release_crlf_and_last_line_wins() {
    let r = parse_os_release("ID=fedora\r\nID=rocky\r\nID_LIKE=\"rhel centos fedora\"\r\n");
    assert_eq!(r.distro_id, "rocky");
    assert_eq!(r.distro_like, strings(&["rhel", "centos", "fedora"]));
}

#[test]
fn os_release_empty() {
    let r = parse_os_release("");
    assert_eq!(r.distro_id, "");
    assert!(r.distro_like.is_empty());
}

#[test]
fn os_release_only_quotes() {
    let r = parse_os_release("ID=\"\"\"\nID_LIKE=\"\"");
    assert_eq!(r.distro_id, "");
    assert!(r.distro_like.is_empty());
}

#[test]
fn families() {
    assert_eq!(distro_family("ubuntu"), vec![Apt]);
    assert_eq!(distro_family("centos"), vec![Dnf, Yum]);
    assert_eq!(distro_family("almalinux"), vec![Dnf]);
    assert_eq!(distro_family("endeavouros"), vec![Pacman, Yay, Paru]);
    assert_eq!(distro_family("opensuse-tumbleweed"), vec![Zypper]);
    assert_eq!(distro_family("alpine"), vec![Apk]);
    assert_eq!(distro_family("void"), vec![Xbps]);
    assert_eq!(distro_family("gentoo"), vec![Emerge]);
    assert_eq!(distro_family("Arch"), vec![]);
}

#[test]
fn relevant_for_arch() {
    assert_eq!(
        detect_relevant_managers("arch", &[]),
        vec![Pacman, Yay, Paru, Flatpak, Snap]
    );
}

#[test]
fn relevant_for_derivative_has_no_repeats() {
    assert_eq!(
        detect_relevant_managers("manjaro", &strings(&["arch"])),
        vec![Pacman, Yay, Paru, Flatpak, Snap]
    );
    assert_eq!(
        detect_relevant_managers("rocky", &strings(&["rhel", "centos", "fedora"])),
        vec![Dnf, Yum, Flatpak, Snap]
    );
}

#[test]
fn relevant_for_unknown_distro_is_fallback() {
    assert_eq!(
        detect_relevant_managers("nixos", &[]),
        vec![Apt, Dnf, Pacman, Flatpak, Snap]
    );
    assert_eq!(
        detect_relevant_managers("", &[]),
        vec![Apt, Dnf, Pacman, Flatpak, Snap]
    );
}

#[test]
fn relevant_for_like_only() {
    assert_eq!(
        detect_relevant_managers("linuxlite", &strings(&["ubuntu", "debian"])),
        vec![Apt, Flatpak, Snap]
    );
}

#[test]
fn probing() {
    let order = probe_order();
    assert_eq!(
        order,
        vec![Pacman, Yay, Paru, Apt, Dnf, Yum, Xbps, Emerge, Zypper, Apk, Flatpak, Snap]
    );
    assert_eq!(probe_for(Snap), Probe::SnapService);
    assert_eq!(probe_for(Flatpak), Probe::Binary);
    let mut found = vec![false; 12];
    found[0] = true;
    found[1] = true;
    found[10] = true;
    assert_eq!(detect_available_managers(&found), vec![Pacman, Yay, Flatpak]);
    assert_eq!(detect_available_managers(&vec![false; 12]), vec![]);
}

#[test]
fn snap_needs_systemd() {
    assert!(snap_available(true, true, true));
    assert!(!snap_available(true, false, true));
    assert!(!snap_available(false, true, true));
    assert!(!snap_available(true, true, false));
}

#[test]
fn executable_bits() {
    assert!(is_executable(0o755));
    assert!(is_executable(0o100744));
    assert!(is_executable(0o601));
    assert!(!is_executable(0o644));
    assert!(!is_executable(0o100666));
}

#[test]
fn system_of_ubuntu() {
    let info = detect_system("ID=ubuntu\nID_LIKE=debian\n", vec![Apt, Snap], false).unwrap();
    assert_eq!(info.distro_id, "ubuntu");
    assert_eq!(info.distro_like, strings(&["debian"]));
    assert_eq!(info.relevant_managers, vec![Apt, Flatpak, Snap]);
    assert_eq!(info.available_managers, vec![Apt, Snap]);
    assert!(!info.is_immutable);
}

#[test]
fn system_immutable_by_id() {
    let info = detect_system("ID=silverblue\nID_LIKE=fedora\n", vec![Dnf, Flatpak], false).unwrap();
    assert!(info.is_immutable);
    assert_eq!(info.relevant_managers, vec![Flatpak, Snap]);
}

#[test]
fn system_immutable_by_rpm_ostree() {
    let info = detect_system("ID=bazzite\nID_LIKE=\"fedora\"\n", vec![Flatpak], true).unwrap();
    assert!(info.is_immutable);
    assert_eq!(info.relevant_managers, vec![Flatpak, Snap]);
}

#[test]
fn system_without_managers_is_an_error() {
    let err = detect_system("ID=arch\n", vec![], false).unwrap_err();
    assert_eq!(
        err,
        "Tidak terdeteksi package manager yang didukung. Pastikan salah satu package manager terpasang."
    );
}

#[test]
fn os_release_uppercase_and_unicode() {
    let r = parse_os_release("ID=ARCH\nID_LIKE=\"ÉLITE Debian\"\n");
    assert_eq!(r.distro_id, "arch");
    assert_eq!(r.distro_like, strings(&["élite", "debian"]));
}

#[test]
fn each_probe_decides_its_manager() {
    let order = probe_order();
    for i in 0..order.len() {
        let mut found = vec![false; 12];
        found[i] = true;
        let r = detect_available_managers(&found);
        assert_eq!(r, vec![order[i]]);
    }
}

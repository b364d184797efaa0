use updet::cli::{choose_menu_action, menu_lines, MenuAction};
use updet::detect::detect_relevant_managers;
use updet::manager::PackageManager;
use updet::text::{centered, fit_display, parse_choice};
use updet::updater::filter_redundant_managers;
use PackageManager::{Dnf, Flatpak, Pacman, Paru, Snap, Yay, Yum};

#[test]
fn fedora_with_dnf_and_yum_runs_dnf_only() {
    let relevant = detect_relevant_managers("fedora", &[]);
    let out = filter_redundant_managers(&relevant, &[Dnf, Yum, Flatpak]);
    assert!(out.contains(&Dnf));
    assert!(!out.contains(&Yum));
}

#[test]
fn arch_with_yay_runs_neither_paru_nor_pacman() {
    let relevant = detect_relevant_managers("endeavouros", &["arch".to_string()]);
    let out = filter_redundant_managers(&relevant, &[Pacman, Paru, Yay]);
    assert!(out.contains(&Yay));
    assert!(!out.contains(&Paru));
    assert!(!out.contains(&Pacman));
}

#[test]
fn flatpak_and_snap_always_offered_once() {
    for (id, like) in [("arch", vec![]), ("debian", vec![]), ("xyz", vec![]), ("pop", vec!["ubuntu".to_string(), "debian".to_string()])] {
        let r = detect_relevant_managers(id, &like);
        assert_eq!(r.iter().filter(|m| **m == Flatpak).count(), 1);
        assert_eq!(r.iter().filter(|m| **m == Snap).count(), 1);
        for (i, a) in r.iter().enumerate() {
            for b in &r[i + 1..] {
                assert_ne!(a, b);
            }
        }
    }
}

#[test]
fn printed_numbers_read_back() {
    for n in [0u32, 1, 9, 10, 42, 100, 65535, 4294967295] {
        assert_eq!(parse_choice(&n.to_string()), Some(n));
        assert_eq!(parse_choice(&format!("{}\n", n)), Some(n));
    }
}

#[test]
fn fitted_text_fits() {
    for w in 1..8 {
        assert!(fit_display("a long distribution name", w).chars().count() <= w);
    }
    for w in 3..8 {
        assert_eq!(centered("abc", w).chars().count(), w);
    }
}

#[test]
fn order_of_like_names_does_not_matter() {
    let a = detect_relevant_managers("rocky", &["rhel".to_string(), "fedora".to_string(), "arch".to_string()]);
    let b = detect_relevant_managers("rocky", &["arch".to_string(), "fedora".to_string(), "rhel".to_string()]);
    assert_eq!(a.len(), b.len());
    for m in &a {
        assert!(b.contains(m));
    }
}

#[test]
fn menu_number_selects_its_line() {
    let relevant = [Pacman, Yay, Paru];
    let available = [Pacman, Yay];
    let lines = menu_lines(&relevant, &available);
    for (i, line) in lines.iter().enumerate() {
        let number = &line[3..line.find(']').unwrap()];
        let k = parse_choice(&format!("{}\n", number)).unwrap();
        let action = choose_menu_action(k, &relevant, &available);
        if i < relevant.len() {
            assert!(action == MenuAction::Update(relevant[i]) || action == MenuAction::Unavailable(relevant[i]));
        } else if i == relevant.len() {
            assert_eq!(action, MenuAction::UpdateAll);
        } else {
            assert_eq!(action, MenuAction::Quit);
        }
    }
}

#[test]
fn pacman_skipped_only_for_a_running_helper() {
    let fallback = detect_relevant_managers("unknown", &[]);
    let out = filter_redundant_managers(&fallback, &[Pacman, Yay]);
    assert!(out.contains(&Pacman));
    let arch = detect_relevant_managers("arch", &[]);
    let out = filter_redundant_managers(&arch, &[Pacman, Yay]);
    assert!(!out.contains(&Pacman) && out.contains(&Yay));
}

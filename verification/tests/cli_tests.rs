use updet::cli::{
    choose_menu_action, first_available, menu_label, parse_args, select_aur_helper,
    select_primary_manager, Command, MenuAction, PrimarySelection,
};
use updet::manager::PackageManager;
use PackageManager::{Apt, Dnf, Emerge, Flatpak, Pacman, Paru, Snap, Xbps, Yay, Yum};

fn args(v: &[&str]) -> Vec<String> {
    v.iter().map(|s| s.to_string()).collect()
}

#[test]
fn command_line() {
    assert_eq!(parse_args(&args(&["updet"])).command, Command::Menu);
    assert_eq!(parse_args(&args(&["updet", "-h"])).command, Command::Help);
    assert_eq!(parse_args(&args(&["updet", "--help"])).command, Command::Help);
    assert_eq!(parse_args(&args(&["updet", "-V"])).command, Command::Version);
    assert_eq!(parse_args(&args(&["updet", "--version"])).command, Command::Version);
    assert_eq!(parse_args(&args(&["updet", "--all"])).command, Command::All);
    assert_eq!(parse_args(&args(&["updet", "--pkg"])).command, Command::Pkg);
    assert_eq!(parse_args(&args(&["updet", "--aur"])).command, Command::Aur);
    assert_eq!(parse_args(&args(&["updet", "--flatpak"])).command, Command::Flatpak);
    assert_eq!(parse_args(&args(&["updet", "--snap"])).command, Command::Snap);
    assert_eq!(parse_args(&args(&["updet", "--ALL"])).command, Command::Unknown);
    let inv = parse_args(&args(&["updet", "--all", "--snap"]));
    assert_eq!(inv.command, Command::All);
    assert!(inv.extra_arguments);
    assert!(!parse_args(&args(&["updet", "--all"])).extra_arguments);
    assert!(!parse_args(&args(&[])).extra_arguments);
}

#[test]
fn menu_actions() {
    let relevant = [Pacman, Yay, Paru, Flatpak, Snap];
    let available = [Pacman, Yay, Flatpak];
    assert_eq!(choose_menu_action(0, &relevant, &available), MenuAction::Quit);
    assert_eq!(choose_menu_action(1, &relevant, &available), MenuAction::Update(Pacman));
    assert_eq!(choose_menu_action(3, &relevant, &available), MenuAction::Unavailable(Paru));
    assert_eq!(choose_menu_action(5, &relevant, &available), MenuAction::Unavailable(Snap));
    assert_eq!(choose_menu_action(6, &relevant, &available), MenuAction::UpdateAll);
    assert_eq!(choose_menu_action(7, &relevant, &available), MenuAction::Invalid);
    assert_eq!(choose_menu_action(u32::MAX, &relevant, &available), MenuAction::Invalid);
}

#[test]
fn labels() {
    assert_eq!(menu_label(Yay, &[Yay]), "yay");
    assert_eq!(menu_label(Paru, &[Yay]), "paru (tidak tersedia)");
    assert_eq!(menu_label(Xbps, &[Xbps]), "xbps-install");
}

#[test]
fn primary_selection() {
    assert_eq!(select_primary_manager(true, &[Dnf]), PrimarySelection::Immutable);
    assert_eq!(select_primary_manager(false, &[Dnf, Apt]), PrimarySelection::Found(Apt));
    assert_eq!(select_primary_manager(false, &[Yum, Flatpak]), PrimarySelection::Found(Yum));
    assert_eq!(select_primary_manager(false, &[Yum, Dnf]), PrimarySelection::Found(Dnf));
    assert_eq!(select_primary_manager(false, &[Flatpak, Snap, Yay]), PrimarySelection::NotFound);
    assert_eq!(select_primary_manager(false, &[Emerge]), PrimarySelection::Found(Emerge));
}

#[test]
fn aur_selection() {
    assert_eq!(select_aur_helper(&[Paru, Yay]), Some(Yay));
    assert_eq!(select_aur_helper(&[Pacman, Paru]), Some(Paru));
    assert_eq!(select_aur_helper(&[Pacman]), None);
    assert_eq!(first_available(&[Flatpak], &[Snap, Flatpak]), Some(Flatpak));
    assert_eq!(first_available(&[Snap], &[Flatpak]), None);
    assert_eq!(first_available(&[], &[Flatpak]), None);
}

#[test]
fn menu_lines_numbered() {
    let lines = updet::cli::menu_lines(&[Pacman, Yay, Flatpak], &[Pacman, Flatpak]);
    assert_eq!(
        lines,
        vec![
            "  [1] Update pacman",
            "  [2] Update yay (tidak tersedia)",
            "  [3] Update flatpak",
            "  [4] Update semua yang tersedia",
            "  [0] Keluar",
        ]
    );
    assert_eq!(updet::cli::menu_lines(&[], &[]), vec!["  [1] Update semua yang tersedia", "  [0] Keluar"]);
}

use updet::manager::PackageManager;
use updet::updater::StepOutcome::{Failed, Skipped, Succeeded};
use updet::updater::{
    filter_redundant_managers, plan_update_all, summarize_update_all, update_command, StepOutcome,
    UpdateStep, UpdateSummary,
};
use PackageManager::{Apt, Dnf, Emerge, Flatpak, Pacman, Paru, Snap, Xbps, Yay, Yum};

#[test]
fn commands() {
    assert_eq!(update_command(Apt), "sudo apt update && sudo apt upgrade -y");
    assert_eq!(update_command(Pacman), "sudo pacman -Syu --noconfirm");
    assert_eq!(update_command(Emerge), "sudo emaint -a sync && sudo emerge -uDN @world");
    assert_eq!(update_command(Snap), "sudo snap refresh");
    assert_eq!(update_command(Xbps), "sudo xbps-install -Su");
}

#[test]
fn aur_helper_covers_pacman() {
    let relevant = [Pacman, Yay, Paru, Flatpak, Snap];
    let available = [Pacman, Yay, Paru, Flatpak];
    assert_eq!(
        filter_redundant_managers(&relevant, &available),
        vec![Yay, Flatpak, Snap]
    );
}

#[test]
fn paru_alone_is_used() {
    let relevant = [Pacman, Yay, Paru, Flatpak, Snap];
    let available = [Pacman, Paru];
    assert_eq!(filter_redundant_managers(&relevant, &available), vec![Paru, Flatpak, Snap]);
}

#[test]
fn pacman_kept_without_helper() {
    let relevant = [Pacman, Yay, Paru, Flatpak, Snap];
    let available = [Pacman];
    assert_eq!(filter_redundant_managers(&relevant, &available), vec![Pacman, Flatpak, Snap]);
}

#[test]
fn pacman_runs_when_its_helper_is_not_relevant() {
    let relevant = [Pacman, Flatpak];
    let available = [Pacman, Yay];
    assert_eq!(filter_redundant_managers(&relevant, &available), vec![Pacman, Flatpak]);
    let fallback = [Apt, Dnf, Pacman, Flatpak, Snap];
    assert_eq!(
        filter_redundant_managers(&fallback, &[Pacman, Yay]),
        vec![Apt, Pacman, Flatpak, Snap]
    );
}

#[test]
fn dnf_preferred_whatever_the_order() {
    assert_eq!(filter_redundant_managers(&[Yum, Dnf, Snap], &[Dnf, Yum]), vec![Dnf, Snap]);
    assert_eq!(filter_redundant_managers(&[Yum, Dnf], &[Yum]), vec![Yum]);
    assert_eq!(filter_redundant_managers(&[Dnf, Dnf], &[Dnf]), vec![Dnf]);
    assert_eq!(filter_redundant_managers(&[Yum, Yum], &[Yum]), vec![Yum]);
}

#[test]
fn dnf_preferred_over_yum() {
    let relevant = [Dnf, Yum, Flatpak, Snap];
    assert_eq!(
        filter_redundant_managers(&relevant, &[Dnf, Yum]),
        vec![Dnf, Flatpak, Snap]
    );
    assert_eq!(filter_redundant_managers(&relevant, &[Yum]), vec![Yum, Flatpak, Snap]);
    assert_eq!(filter_redundant_managers(&relevant, &[]), vec![Flatpak, Snap]);
}

#[test]
fn plan_runs_installed_and_skips_others() {
    let relevant = [Pacman, Yay, Paru, Flatpak, Snap];
    let available = [Pacman, Yay, Flatpak];
    assert_eq!(
        plan_update_all(&relevant, &available),
        vec![UpdateStep::Run(Yay), UpdateStep::Run(Flatpak), UpdateStep::Skip(Snap)]
    );
}

#[test]
fn summaries() {
    assert_eq!(summarize_update_all(&[]), UpdateSummary::AllSucceeded);
    assert_eq!(summarize_update_all(&[Succeeded, Succeeded]), UpdateSummary::AllSucceeded);
    assert_eq!(summarize_update_all(&[Succeeded, Skipped]), UpdateSummary::SomeSkipped);
    assert_eq!(summarize_update_all(&[Skipped, Failed, Succeeded]), UpdateSummary::SomeFailed);
}

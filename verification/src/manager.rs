use vstd::prelude::*;

verus! {

/// A package manager that the tool knows how to update.
#[derive(Debug, Clone, Copy, PartialEq, Eq, Structural, Hash)]
pub enum PackageManager {
    Apt,
    Dnf,
    Yum,
    Pacman,
    Yay,
    Paru,
    Zypper,
    Apk,
    Xbps,
    Emerge,
    Flatpak,
    Snap,
}

/// The name of the binary that stands for a package manager.
pub open spec fn manager_name(m: PackageManager) -> Seq<char> {
    match m {
        PackageManager::Apt => "apt"@,
        PackageManager::Dnf => "dnf"@,
        PackageManager::Yum => "yum"@,
        PackageManager::Pacman => "pacman"@,
        PackageManager::Yay => "yay"@,
        PackageManager::Paru => "paru"@,
        PackageManager::Zypper => "zypper"@,
        PackageManager::Xbps => "xbps-install"@,
        PackageManager::Emerge => "emerge"@,
        PackageManager::Apk => "apk"@,
        PackageManager::Flatpak => "flatpak"@,
        PackageManager::Snap => "snap"@,
    }
}

impl PackageManager {
    /// The binary name of this package manager.
    pub fn name(&self) -> (r: &'static str)
        ensures
            r@ == manager_name(*self),
    {
        match self {
            PackageManager::Apt => "apt",
            PackageManager::Dnf => "dnf",
            PackageManager::Yum => "yum",
            PackageManager::Pacman => "pacman",
            PackageManager::Yay => "yay",
            PackageManager::Paru => "paru",
            PackageManager::Zypper => "zypper",
            PackageManager::Xbps => "xbps-install",
            PackageManager::Emerge => "emerge",
            PackageManager::Apk => "apk",
            PackageManager::Flatpak => "flatpak",
            PackageManager::Snap => "snap",
        }
    }
}


/// The binary of each manager, which the tool looks for on the `PATH` and
/// shows in its menu.
pub proof fn law_manager_names()
    ensures
        manager_name(PackageManager::Apt) == "apt"@,
        manager_name(PackageManager::Dnf) == "dnf"@,
        manager_name(PackageManager::Yum) == "yum"@,
        manager_name(PackageManager::Pacman) == "pacman"@,
        manager_name(PackageManager::Yay) == "yay"@,
        manager_name(PackageManager::Paru) == "paru"@,
        manager_name(PackageManager::Zypper) == "zypper"@,
        manager_name(PackageManager::Xbps) == "xbps-install"@,
        manager_name(PackageManager::Emerge) == "emerge"@,
        manager_name(PackageManager::Apk) == "apk"@,
        manager_name(PackageManager::Flatpak) == "flatpak"@,
        manager_name(PackageManager::Snap) == "snap"@,
{
}

} // verus!

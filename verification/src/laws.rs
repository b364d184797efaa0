use vstd::prelude::*;
use crate::manager::PackageManager;
use crate::cli::{
    menu_action_spec, menu_entry_line, menu_entry_number, menu_entry_text, menu_lines_spec,
    MenuAction,
};
use crate::text::{decimal_digits, law_typed_number_reads_back, parse_u32_spec, trim_whitespace};
use crate::detect::{
    law_relevant_no_duplicates, law_relevant_order, no_duplicates, precedes, relevant_managers,
};
use crate::updater::{
    filtered, group_taken, helper_runs, in_group, law_dnf_preferred_over_yum,
    law_first_installed_helper_runs, law_one_per_group, law_pacman_or_its_helper_runs,
};

verus! {

/// When dnf is installed on a distribution that uses dnf or yum, updating
/// everything runs dnf and not yum.
pub proof fn law_dnf_runs_instead_of_yum(names: Seq<Seq<char>>, available: Seq<PackageManager>)
    requires
        available.contains(PackageManager::Dnf),
        relevant_managers(names).contains(PackageManager::Dnf) || relevant_managers(
            names,
        ).contains(PackageManager::Yum),
    ensures
        filtered(relevant_managers(names), available).contains(PackageManager::Dnf),
        !filtered(relevant_managers(names), available).contains(PackageManager::Yum),
{
    let rel = relevant_managers(names);
    law_relevant_order(names, PackageManager::Dnf, PackageManager::Yum);
    if !rel.contains(PackageManager::Dnf) {
        let j = choose|j: int| 0 <= j < rel.len() && rel[j] == PackageManager::Yum;
        let i = choose|i: int| 0 <= i < j && rel[i] == PackageManager::Dnf;
        assert(rel[i] == PackageManager::Dnf);
    }
    law_dnf_preferred_over_yum(rel, available);
}

/// When yay is installed on a distribution that uses AUR helpers, updating
/// everything runs yay, and neither paru nor pacman.
pub proof fn law_yay_runs_instead_of_paru_and_pacman(
    names: Seq<Seq<char>>,
    available: Seq<PackageManager>,
)
    requires
        available.contains(PackageManager::Yay),
        relevant_managers(names).contains(PackageManager::Yay) || relevant_managers(
            names,
        ).contains(PackageManager::Paru),
    ensures
        filtered(relevant_managers(names), available).contains(PackageManager::Yay),
        !filtered(relevant_managers(names), available).contains(PackageManager::Paru),
        !filtered(relevant_managers(names), available).contains(PackageManager::Pacman),
{
    let rel = relevant_managers(names);
    law_relevant_no_duplicates(names);
    law_relevant_order(names, PackageManager::Yay, PackageManager::Paru);
    assert(no_duplicates(rel));
    assert(precedes(rel, PackageManager::Yay, PackageManager::Paru));
    if !rel.contains(PackageManager::Yay) {
        let j = choose|j: int| 0 <= j < rel.len() && rel[j] == PackageManager::Paru;
        let i = choose|i: int| 0 <= i < j && rel[i] == PackageManager::Yay;
        assert(rel[i] == PackageManager::Yay);
    }
    let i = choose|i: int| 0 <= i < rel.len() && rel[i] == PackageManager::Yay;
    assert(!group_taken(rel, available, i, true)) by {
        if group_taken(rel, available, i, true) {
            let j = choose|j: int|
                0 <= j < i && #[trigger] in_group(rel[j], true) && available.contains(rel[j]);
            if rel[j] == PackageManager::Yay {
                assert(rel[j] == rel[i]);
            } else {
                assert(rel[j] == PackageManager::Paru);
                let k = choose|k: int| 0 <= k < j && rel[k] == PackageManager::Yay;
                assert(rel[k] == rel[i]);
            }
        }
    }
    law_first_installed_helper_runs(rel, available, i);
    law_one_per_group(rel, available, true);
    let f = filtered(rel, available);
    if f.contains(PackageManager::Paru) {
        let k1 = choose|k1: int| 0 <= k1 < f.len() && f[k1] == PackageManager::Yay;
        let k2 = choose|k2: int| 0 <= k2 < f.len() && f[k2] == PackageManager::Paru;
        assert(in_group(f[k1], true) && in_group(f[k2], true));
    }
    assert(in_group(rel[i], true) && available.contains(rel[i]));
    assert(helper_runs(rel, available));
    law_pacman_or_its_helper_runs(rel, available);
}


/// Each line of the menu shows the number that selects it: the number,
/// typed back with Enter, is read as itself, and the menu then acts on that
/// line's entry (the manager it names, updating everything, or leaving).
pub proof fn law_menu_number_selects_entry(
    relevant: Seq<PackageManager>,
    available: Seq<PackageManager>,
    i: int,
)
    requires
        0 <= i < relevant.len() + 2,
        relevant.len() < u32::MAX,
    ensures
        ({
            let k = menu_entry_number(relevant, i);
            &&& menu_lines_spec(relevant, available)[i] == menu_entry_line(
                k,
                menu_entry_text(relevant, available, i),
            )
            &&& k <= u32::MAX
            &&& parse_u32_spec(trim_whitespace(decimal_digits(k) + seq!['\n'])) == Some(k as u32)
            &&& menu_action_spec(k as u32, relevant, available) == if i < relevant.len() {
                if available.contains(relevant[i]) {
                    MenuAction::Update(relevant[i])
                } else {
                    MenuAction::Unavailable(relevant[i])
                }
            } else if i == relevant.len() {
                MenuAction::UpdateAll
            } else {
                MenuAction::Quit
            }
        }),
{
    let k = menu_entry_number(relevant, i);
    law_typed_number_reads_back(k as u32);
}

} // verus!

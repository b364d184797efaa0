use vstd::prelude::*;
use crate::manager::{PackageManager, manager_name};
use crate::detect::contains_manager;
use crate::os_release::strings;
use crate::text::{decimal_digits, decimal_string, str_eq};

verus! {

// ---------------------------------------------------------------------------
// Command line
// ---------------------------------------------------------------------------

/// What the command line asks for.
#[derive(Debug, Clone, Copy, PartialEq, Eq, Structural)]
pub enum Command {
    /// `--help` or `-h`: show the usage.
    Help,
    /// `--version` or `-V`: show the version.
    Version,
    /// `--all`: update everything installed.
    All,
    /// `--pkg`: update the main package manager.
    Pkg,
    /// `--aur`: update the AUR helper.
    Aur,
    /// `--flatpak`: update Flatpak.
    Flatpak,
    /// `--snap`: update Snap.
    Snap,
    /// Any other argument: an error.
    Unknown,
    /// No argument: the interactive menu.
    Menu,
}

/// What an argument asks for.
pub open spec fn command_for(arg: Seq<char>) -> Command {
    if arg == "--help"@ || arg == "-h"@ {
        Command::Help
    } else if arg == "--version"@ || arg == "-V"@ {
        Command::Version
    } else if arg == "--all"@ {
        Command::All
    } else if arg == "--pkg"@ {
        Command::Pkg
    } else if arg == "--aur"@ {
        Command::Aur
    } else if arg == "--flatpak"@ {
        Command::Flatpak
    } else if arg == "--snap"@ {
        Command::Snap
    } else {
        Command::Unknown
    }
}

/// What a command line asks for.
#[derive(Debug, Clone, Copy, PartialEq, Eq, Structural)]
pub struct Invocation {
    /// The command that the first argument names.
    pub command: Command,
    /// Whether arguments after the first were given; they are ignored.
    pub extra_arguments: bool,
}

/// Reads the command line, program name first: only its first argument
/// counts.
pub fn parse_args(args: &[String]) -> (r: Invocation)
    ensures
        r.command == (if args@.len() > 1 {
            command_for(args@[1]@)
        } else {
            Command::Menu
        }),
        r.extra_arguments == (args@.len() > 2),
{
    let extra_arguments = args.len() > 2;
    if args.len() <= 1 {
        return Invocation { command: Command::Menu, extra_arguments };
    }
    let a = args[1].as_str();
    let command = if str_eq(a, "--help") || str_eq(a, "-h") {
        Command::Help
    } else if str_eq(a, "--version") || str_eq(a, "-V") {
        Command::Version
    } else if str_eq(a, "--all") {
        Command::All
    } else if str_eq(a, "--pkg") {
        Command::Pkg
    } else if str_eq(a, "--aur") {
        Command::Aur
    } else if str_eq(a, "--flatpak") {
        Command::Flatpak
    } else if str_eq(a, "--snap") {
        Command::Snap
    } else {
        Command::Unknown
    };
    Invocation { command, extra_arguments }
}

// ---------------------------------------------------------------------------
// Choosing a manager
// ---------------------------------------------------------------------------

/// The first of `candidates` that is installed, if any.
pub open spec fn first_available_spec(
    candidates: Seq<PackageManager>,
    available: Seq<PackageManager>,
) -> Option<PackageManager>
    decreases candidates.len(),
{
    if candidates.len() == 0 {
        None
    } else if available.contains(candidates[0]) {
        Some(candidates[0])
    } else {
        first_available_spec(candidates.drop_first(), available)
    }
}

/// The first of `candidates` that is installed, if any.
pub fn first_available(candidates: &[PackageManager], available: &[PackageManager]) -> (r: Option<
    PackageManager,
>)
    ensures
        r == first_available_spec(candidates@, available@),
{
    let mut i: usize = 0;
    assert(candidates@.skip(0) =~= candidates@);
    while i < candidates.len()
        invariant
            i <= candidates@.len(),
            first_available_spec(candidates@, available@) == first_available_spec(
                candidates@.skip(i as int),
                available@,
            ),
        decreases candidates.len() - i,
    {
        let m = candidates[i];
        assert(candidates@.skip(i as int)[0] == m);
        if contains_manager(available, m) {
            return Some(m);
        }
        assert(candidates@.skip(i as int).drop_first() =~= candidates@.skip(i + 1));
        i = i + 1;
    }
    None
}

/// The main package managers, in the order in which one is chosen.
pub open spec fn primary_candidates() -> Seq<PackageManager> {
    seq![
        PackageManager::Pacman,
        PackageManager::Apt,
        PackageManager::Dnf,
        PackageManager::Yum,
        PackageManager::Zypper,
        PackageManager::Apk,
        PackageManager::Xbps,
        PackageManager::Emerge,
    ]
}

/// The AUR helpers, in the order in which one is chosen.
pub open spec fn aur_candidates() -> Seq<PackageManager> {
    seq![PackageManager::Yay, PackageManager::Paru]
}

/// Which main package manager `--pkg` updates.
#[derive(Debug, Clone, Copy, PartialEq, Eq, Structural)]
pub enum PrimarySelection {
    /// The system is image based: its packages are not updated in place.
    Immutable,
    /// This manager.
    Found(PackageManager),
    /// No main package manager is installed.
    NotFound,
}

/// The main package manager that `--pkg` updates: none on an image-based
/// system, else the first installed of [`primary_candidates`].
pub open spec fn primary_selection(is_immutable: bool, available: Seq<PackageManager>) -> PrimarySelection {
    if is_immutable {
        PrimarySelection::Immutable
    } else {
        match first_available_spec(primary_candidates(), available) {
            Some(m) => PrimarySelection::Found(m),
            None => PrimarySelection::NotFound,
        }
    }
}

/// Chooses the main package manager to update: none on an image-based
/// system, else the first installed of [`primary_candidates`].
pub fn select_primary_manager(is_immutable: bool, available: &[PackageManager]) -> (r:
    PrimarySelection)
    ensures
        r == primary_selection(is_immutable, available@),
{
    if is_immutable {
        return PrimarySelection::Immutable;
    }
    let candidates = vec![
        PackageManager::Pacman,
        PackageManager::Apt,
        PackageManager::Dnf,
        PackageManager::Yum,
        PackageManager::Zypper,
        PackageManager::Apk,
        PackageManager::Xbps,
        PackageManager::Emerge,
    ];
    assert(candidates@ =~= primary_candidates());
    match first_available(candidates.as_slice(), available) {
        Some(m) => PrimarySelection::Found(m),
        None => PrimarySelection::NotFound,
    }
}

/// Chooses the AUR helper to update: yay when installed, else paru.
pub fn select_aur_helper(available: &[PackageManager]) -> (r: Option<PackageManager>)
    ensures
        r == first_available_spec(aur_candidates(), available@),
{
    let candidates = vec![PackageManager::Yay, PackageManager::Paru];
    assert(candidates@ =~= aur_candidates());
    first_available(candidates.as_slice(), available)
}

// ---------------------------------------------------------------------------
// The interactive menu
// ---------------------------------------------------------------------------

/// The label of a manager in the menu, marked when it is not installed.
pub open spec fn menu_label_spec(m: PackageManager, available: Seq<PackageManager>) -> Seq<char> {
    if available.contains(m) {
        manager_name(m)
    } else {
        manager_name(m) + " (tidak tersedia)"@
    }
}

/// The label of a manager in the menu.
pub fn menu_label(m: PackageManager, available: &[PackageManager]) -> (r: String)
    ensures
        r@ == menu_label_spec(m, available@),
{
    let mut r = String::from_str(m.name());
    if !contains_manager(available, m) {
        r.append(" (tidak tersedia)");
    }
    r
}

/// What a menu choice asks for.
#[derive(Debug, Clone, Copy, PartialEq, Eq, Structural)]
pub enum MenuAction {
    /// Choice 0: leave.
    Quit,
    /// Update this installed manager.
    Update(PackageManager),
    /// This manager was chosen but is not installed.
    Unavailable(PackageManager),
    /// Update everything (the entry after the managers).
    UpdateAll,
    /// No entry has this number.
    Invalid,
}

/// What choice `choice` of the menu asks for: 0 leaves, 1 to `n` pick the
/// relevant managers in order, `n + 1` updates everything.
pub open spec fn menu_action_spec(
    choice: u32,
    relevant: Seq<PackageManager>,
    available: Seq<PackageManager>,
) -> MenuAction {
    if choice == 0 {
        MenuAction::Quit
    } else if choice <= relevant.len() {
        let m = relevant[choice - 1];
        if available.contains(m) {
            MenuAction::Update(m)
        } else {
            MenuAction::Unavailable(m)
        }
    } else if choice == relevant.len() + 1 {
        MenuAction::UpdateAll
    } else {
        MenuAction::Invalid
    }
}

/// Decides what a menu choice asks for.
pub fn choose_menu_action(choice: u32, relevant: &[PackageManager], available: &[PackageManager]) -> (r:
    MenuAction)
    requires
        relevant@.len() < u32::MAX,
    ensures
        r == menu_action_spec(choice, relevant@, available@),
{
    if choice == 0 {
        return MenuAction::Quit;
    }
    let n = relevant.len() as u32;
    if choice <= n {
        let m = relevant[(choice - 1) as usize];
        if contains_manager(available, m) {
            MenuAction::Update(m)
        } else {
            MenuAction::Unavailable(m)
        }
    } else if choice == n + 1 {
        MenuAction::UpdateAll
    } else {
        MenuAction::Invalid
    }
}


/// A numbered line of the menu: `  [k] text`.
pub open spec fn menu_entry_line(k: nat, text: Seq<char>) -> Seq<char> {
    "  ["@ + decimal_digits(k) + "] "@ + text
}

/// The text of menu entry `i` (counting from 0): the relevant managers,
/// then updating everything, then leaving.
pub open spec fn menu_entry_text(
    relevant: Seq<PackageManager>,
    available: Seq<PackageManager>,
    i: int,
) -> Seq<char> {
    if i < relevant.len() {
        "Update "@ + menu_label_spec(relevant[i], available)
    } else if i == relevant.len() {
        "Update semua yang tersedia"@
    } else {
        "Keluar"@
    }
}

/// The number of menu entry `i`: `i + 1`, except 0 for leaving.
pub open spec fn menu_entry_number(relevant: Seq<PackageManager>, i: int) -> nat {
    if i <= relevant.len() {
        (i + 1) as nat
    } else {
        0
    }
}

/// The numbered lines of the menu.
pub open spec fn menu_lines_spec(
    relevant: Seq<PackageManager>,
    available: Seq<PackageManager>,
) -> Seq<Seq<char>> {
    Seq::new(
        relevant.len() + 2,
        |i: int|
            menu_entry_line(
                menu_entry_number(relevant, i),
                menu_entry_text(relevant, available, i),
            ),
    )
}

fn entry_line(k: u32, text: &str) -> (r: String)
    ensures
        r@ == menu_entry_line(k as nat, text@),
{
    let mut r = String::from_str("  [");
    let digits = decimal_string(k);
    r.append(digits.as_str());
    r.append("] ");
    r.append(text);
    assert(r@ =~= menu_entry_line(k as nat, text@));
    r
}

/// The numbered lines of the menu: one per relevant manager, then one to
/// update everything, then one to leave.
pub fn menu_lines(relevant: &[PackageManager], available: &[PackageManager]) -> (r: Vec<String>)
    requires
        relevant@.len() < u32::MAX,
    ensures
        strings(r@) == menu_lines_spec(relevant@, available@),
{
    let ghost expected = menu_lines_spec(relevant@, available@);
    let mut r: Vec<String> = Vec::new();
    for i in 0..relevant.len()
        invariant
            relevant@.len() < u32::MAX,
            expected == menu_lines_spec(relevant@, available@),
            strings(r@) == expected.take(i as int),
    {
        let mut text = String::from_str("Update ");
        let label = menu_label(relevant[i], available);
        text.append(label.as_str());
        let line = entry_line((i + 1) as u32, text.as_str());
        let ghost before = r@;
        r.push(line);
        assert(strings(r@) =~= strings(before).push(line@));
        assert(line@ == expected[i as int]);
        assert(expected.take(i + 1) =~= expected.take(i as int).push(expected[i as int]));
    }
    let n = relevant.len();
    let all = entry_line((n + 1) as u32, "Update semua yang tersedia");
    let ghost before = r@;
    r.push(all);
    assert(strings(r@) =~= strings(before).push(all@));
    let quit = entry_line(0, "Keluar");
    let ghost before2 = r@;
    r.push(quit);
    assert(strings(r@) =~= strings(before2).push(quit@));
    assert(strings(r@) =~= expected);
    r
}


/// What the first installed candidate is: an installed candidate, found
/// whenever one is installed, and the first candidate when it is installed.
pub proof fn lemma_first_available(candidates: Seq<PackageManager>, available: Seq<PackageManager>)
    ensures
        first_available_spec(candidates, available) matches Some(m) ==> candidates.contains(m)
            && available.contains(m),
        first_available_spec(candidates, available) is None <==> forall|i: int|
            0 <= i < candidates.len() ==> !available.contains(#[trigger] candidates[i]),
        candidates.len() > 0 && available.contains(candidates[0]) ==> first_available_spec(
            candidates,
            available,
        ) == Some(candidates[0]),
    decreases candidates.len(),
{
    if candidates.len() > 0 {
        let rest = candidates.drop_first();
        lemma_first_available(rest, available);
        if let Some(m) = first_available_spec(candidates, available) {
            if !available.contains(candidates[0]) {
                let k = choose|k: int| 0 <= k < rest.len() && rest[k] == m;
                assert(candidates[k + 1] == m);
            } else {
                assert(candidates[0] == m);
            }
        }
        if first_available_spec(candidates, available) is None {
            assert forall|i: int| 0 <= i < candidates.len() implies !available.contains(
                #[trigger] candidates[i],
            ) by {
                if i > 0 {
                    assert(candidates[i] == rest[i - 1]);
                }
            }
        } else if !available.contains(candidates[0]) {
            let i = choose|i: int| 0 <= i < rest.len() && available.contains(#[trigger] rest[i]);
            assert(candidates[i + 1] == rest[i]);
        }
    }
}

/// The main package managers: pacman, apt, dnf, yum, zypper, apk, xbps and
/// emerge.
pub open spec fn is_primary(m: PackageManager) -> bool {
    ||| m == PackageManager::Pacman
    ||| m == PackageManager::Apt
    ||| m == PackageManager::Dnf
    ||| m == PackageManager::Yum
    ||| m == PackageManager::Zypper
    ||| m == PackageManager::Apk
    ||| m == PackageManager::Xbps
    ||| m == PackageManager::Emerge
}

/// `--pkg` refuses an image-based system; elsewhere it finds a main
/// package manager exactly when one is installed, finds only an installed
/// main package manager, and takes pacman whenever pacman is installed.
pub proof fn law_primary_selection(is_immutable: bool, available: Seq<PackageManager>)
    ensures
        is_immutable ==> primary_selection(is_immutable, available) == PrimarySelection::Immutable,
        !is_immutable ==> (primary_selection(is_immutable, available) is Found <==> exists|j: int|
            0 <= j < available.len() && is_primary(#[trigger] available[j])),
        primary_selection(is_immutable, available) matches PrimarySelection::Found(m) ==> is_primary(
            m,
        ) && available.contains(m),
        !is_immutable && available.contains(PackageManager::Pacman) ==> primary_selection(
            is_immutable,
            available,
        ) == PrimarySelection::Found(PackageManager::Pacman),
{
    let c = primary_candidates();
    lemma_first_available(c, available);
    if let Some(m) = first_available_spec(c, available) {
        let k = choose|k: int| 0 <= k < c.len() && c[k] == m;
        assert(is_primary(c[k]));
        let j = choose|j: int| 0 <= j < available.len() && available[j] == m;
        assert(is_primary(available[j]));
    }
    if exists|j: int| 0 <= j < available.len() && is_primary(#[trigger] available[j]) {
        let j = choose|j: int| 0 <= j < available.len() && is_primary(#[trigger] available[j]);
        let m = available[j];
        assert(available.contains(m));
        let i: int = if m == PackageManager::Pacman {
            0
        } else if m == PackageManager::Apt {
            1
        } else if m == PackageManager::Dnf {
            2
        } else if m == PackageManager::Yum {
            3
        } else if m == PackageManager::Zypper {
            4
        } else if m == PackageManager::Apk {
            5
        } else if m == PackageManager::Xbps {
            6
        } else {
            7
        };
        assert(c[i] == m);
        assert(!(forall|i2: int| 0 <= i2 < c.len() ==> !available.contains(#[trigger] c[i2])));
    }
    assert(c[0] == PackageManager::Pacman);
}


/// The options of the command line and what each asks for; any other
/// argument is unknown.
pub proof fn law_command_table()
    ensures
        command_for("--help"@) == Command::Help,
        command_for("-h"@) == Command::Help,
        command_for("--version"@) == Command::Version,
        command_for("-V"@) == Command::Version,
        command_for("--all"@) == Command::All,
        command_for("--pkg"@) == Command::Pkg,
        command_for("--aur"@) == Command::Aur,
        command_for("--flatpak"@) == Command::Flatpak,
        command_for("--snap"@) == Command::Snap,
        command_for(seq!['-', '-', 'x']) == Command::Unknown,
{
    reveal_strlit("--help");
    reveal_strlit("-h");
    reveal_strlit("--version");
    reveal_strlit("-V");
    reveal_strlit("--all");
    reveal_strlit("--pkg");
    reveal_strlit("--aur");
    reveal_strlit("--flatpak");
    reveal_strlit("--snap");
    assert("--help"@.len() == 6);
    assert("-h"@.len() == 2);
    assert("--version"@.len() == 9);
    assert("-V"@.len() == 2);
    assert("--all"@.len() == 5);
    assert("--pkg"@.len() == 5);
    assert("--aur"@.len() == 5);
    assert("--flatpak"@.len() == 9);
    assert("--snap"@.len() == 6);
    assert("--help"@[2] != "--snap"@[2]);
    assert("-h"@[1] != "-V"@[1]);
    assert("--version"@[2] != "--flatpak"@[2]);
    assert("--all"@[2] != "--pkg"@[2]);
    assert("--all"@[3] != "--aur"@[3]);
    assert("--pkg"@[2] != "--aur"@[2]);
}

/// `--aur` takes yay whenever it is installed, else paru when installed,
/// else nothing.
pub proof fn law_aur_selection(available: Seq<PackageManager>)
    ensures
        first_available_spec(aur_candidates(), available) == if available.contains(
            PackageManager::Yay,
        ) {
            Some(PackageManager::Yay)
        } else if available.contains(PackageManager::Paru) {
            Some(PackageManager::Paru)
        } else {
            None::<PackageManager>
        },
{
    let c = aur_candidates();
    assert(c.drop_first() =~= seq![PackageManager::Paru]);
    assert(c.drop_first().drop_first() =~= Seq::<PackageManager>::empty());
    assert(c[0] == PackageManager::Yay);
    assert(c.drop_first()[0] == PackageManager::Paru);
    assert(first_available_spec(c.drop_first().drop_first(), available) is None);
    assert(first_available_spec(c.drop_first(), available) == if available.contains(
        PackageManager::Paru,
    ) {
        Some(PackageManager::Paru)
    } else {
        None::<PackageManager>
    });
    assert(first_available_spec(c, available) == if available.contains(PackageManager::Yay) {
        Some(PackageManager::Yay)
    } else {
        first_available_spec(c.drop_first(), available)
    });
}


/// A manager is shown by its binary name, marked as not available exactly
/// when it is not installed.
pub proof fn law_menu_label(m: PackageManager, available: Seq<PackageManager>)
    ensures
        available.contains(m) ==> menu_label_spec(m, available) == manager_name(m),
        !available.contains(m) ==> menu_label_spec(m, available) == manager_name(m)
            + " (tidak tersedia)"@,
{
}

} // verus!

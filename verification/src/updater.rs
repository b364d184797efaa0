use vstd::prelude::*;
use crate::manager::PackageManager;
use crate::detect::contains_manager;

verus! {

// ---------------------------------------------------------------------------
// Commands
// ---------------------------------------------------------------------------

/// The shell command that updates everything a package manager installed.
pub open spec fn update_command_text(m: PackageManager) -> Seq<char> {
    match m {
        PackageManager::Apt => "sudo apt update && sudo apt upgrade -y"@,
        PackageManager::Dnf => "sudo dnf upgrade -y"@,
        PackageManager::Yum => "sudo yum update -y"@,
        PackageManager::Pacman => "sudo pacman -Syu --noconfirm"@,
        PackageManager::Yay => "yay -Syu --noconfirm"@,
        PackageManager::Paru => "paru -Syu --noconfirm"@,
        PackageManager::Zypper => "sudo zypper refresh && sudo zypper update -y"@,
        PackageManager::Apk => "sudo apk update && sudo apk upgrade"@,
        PackageManager::Xbps => "sudo xbps-install -Su"@,
        PackageManager::Emerge => "sudo emaint -a sync && sudo emerge -uDN @world"@,
        PackageManager::Flatpak => "flatpak update -y"@,
        PackageManager::Snap => "sudo snap refresh"@,
    }
}

/// The shell command that updates a package manager's packages.
pub fn update_command(m: PackageManager) -> (r: &'static str)
    ensures
        r@ == update_command_text(m),
{
    match m {
        PackageManager::Apt => "sudo apt update && sudo apt upgrade -y",
        PackageManager::Dnf => "sudo dnf upgrade -y",
        PackageManager::Yum => "sudo yum update -y",
        PackageManager::Pacman => "sudo pacman -Syu --noconfirm",
        PackageManager::Yay => "yay -Syu --noconfirm",
        PackageManager::Paru => "paru -Syu --noconfirm",
        PackageManager::Zypper => "sudo zypper refresh && sudo zypper update -y",
        PackageManager::Apk => "sudo apk update && sudo apk upgrade",
        PackageManager::Xbps => "sudo xbps-install -Su",
        // `emaint -a sync` is the current way Gentoo syncs its repositories.
        PackageManager::Emerge => "sudo emaint -a sync && sudo emerge -uDN @world",
        PackageManager::Flatpak => "flatpak update -y",
        PackageManager::Snap => "sudo snap refresh",
    }
}

// ---------------------------------------------------------------------------
// Redundant managers
// ---------------------------------------------------------------------------

/// The AUR helpers (`aur`) or the managers of the dnf family (otherwise):
/// of each group only one needs to run.
pub open spec fn in_group(m: PackageManager, aur: bool) -> bool {
    if aur {
        m == PackageManager::Yay || m == PackageManager::Paru
    } else {
        m == PackageManager::Dnf || m == PackageManager::Yum
    }
}

/// Whether one of `rel[0..i]` is an installed member of the group.
pub open spec fn group_taken(
    rel: Seq<PackageManager>,
    available: Seq<PackageManager>,
    i: int,
    aur: bool,
) -> bool {
    exists|j: int| 0 <= j < i && #[trigger] in_group(rel[j], aur) && available.contains(rel[j])
}

/// Whether `m` is one of `rel[0..i]`.
pub open spec fn seen_before(rel: Seq<PackageManager>, i: int, m: PackageManager) -> bool {
    exists|j: int| 0 <= j < i && rel[j] == m
}

/// Whether an AUR helper runs: one of the relevant managers is an installed
/// helper. It then updates pacman's packages too.
pub open spec fn helper_runs(rel: Seq<PackageManager>, available: Seq<PackageManager>) -> bool {
    group_taken(rel, available, rel.len() as int, true)
}

/// Whether dnf runs: it is relevant and installed. Yum is then not needed.
pub open spec fn dnf_runs(rel: Seq<PackageManager>, available: Seq<PackageManager>) -> bool {
    rel.contains(PackageManager::Dnf) && available.contains(PackageManager::Dnf)
}

/// Whether `rel[i]` is kept:
/// - pacman unless an AUR helper runs;
/// - an AUR helper when installed and the first installed helper in `rel`;
/// - dnf when installed (at its first place in `rel`);
/// - yum when installed and dnf does not run (at its first place in `rel`);
/// - any other manager.
pub open spec fn kept(rel: Seq<PackageManager>, available: Seq<PackageManager>, i: int) -> bool {
    let m = rel[i];
    if m == PackageManager::Pacman {
        !helper_runs(rel, available)
    } else if in_group(m, true) {
        available.contains(m) && !group_taken(rel, available, i, true)
    } else if m == PackageManager::Dnf {
        available.contains(m) && !seen_before(rel, i, m)
    } else if m == PackageManager::Yum {
        available.contains(m) && !dnf_runs(rel, available) && !seen_before(rel, i, m)
    } else {
        true
    }
}

/// The managers of `rel[0..n]` that are kept, in order.
pub open spec fn kept_upto(rel: Seq<PackageManager>, available: Seq<PackageManager>, n: nat) -> Seq<
    PackageManager,
>
    decreases n,
{
    if n == 0 {
        Seq::empty()
    } else if kept(rel, available, n - 1) {
        kept_upto(rel, available, (n - 1) as nat).push(rel[n - 1])
    } else {
        kept_upto(rel, available, (n - 1) as nat)
    }
}

/// The managers of `rel` that are kept, in order.
pub open spec fn filtered(rel: Seq<PackageManager>, available: Seq<PackageManager>) -> Seq<
    PackageManager,
> {
    kept_upto(rel, available, rel.len())
}

/// Whether one of `rel[0..i]` is an installed AUR helper.
fn installed_helper_among(relevant: &[PackageManager], available: &[PackageManager]) -> (r: bool)
    ensures
        r == helper_runs(relevant@, available@),
{
    let ghost rel = relevant@;
    let ghost avail = available@;
    let mut found = false;
    for i in 0..relevant.len()
        invariant
            rel == relevant@,
            avail == available@,
            found == group_taken(rel, avail, i as int, true),
    {
        let m = relevant[i];
        let installed = contains_manager(available, m);
        proof {
            if in_group(m, true) && installed {
                assert(in_group(rel[i as int], true));
            }
            assert(group_taken(rel, avail, i + 1, true) == (group_taken(rel, avail, i as int, true)
                || (in_group(m, true) && avail.contains(m))));
        }
        if (m == PackageManager::Yay || m == PackageManager::Paru) && installed {
            found = true;
        }
    }
    found
}

/// Drops the managers whose work another one already does: pacman when an
/// AUR helper runs, all AUR helpers but the first installed one, and yum
/// when dnf runs; of each manager of the dnf family only the first entry
/// counts.
pub fn filter_redundant_managers(relevant: &[PackageManager], available: &[PackageManager]) -> (r:
    Vec<PackageManager>)
    ensures
        r@ == filtered(relevant@, available@),
{
    let ghost rel = relevant@;
    let ghost avail = available@;
    let helper = installed_helper_among(relevant, available);
    let dnf = contains_manager(relevant, PackageManager::Dnf) && contains_manager(
        available,
        PackageManager::Dnf,
    );
    let mut aur_added = false;
    let mut dnf_seen = false;
    let mut yum_seen = false;
    let mut out: Vec<PackageManager> = Vec::new();
    for i in 0..relevant.len()
        invariant
            rel == relevant@,
            avail == available@,
            helper == helper_runs(rel, avail),
            dnf == dnf_runs(rel, avail),
            aur_added == group_taken(rel, avail, i as int, true),
            dnf_seen == seen_before(rel, i as int, PackageManager::Dnf),
            yum_seen == seen_before(rel, i as int, PackageManager::Yum),
            out@ == kept_upto(rel, avail, i as nat),
    {
        let m = relevant[i];
        let installed = contains_manager(available, m);
        proof {
            assert(rel[i as int] == m);
            if in_group(m, true) && avail.contains(m) {
                assert(in_group(rel[i as int], true));
            }
            assert(group_taken(rel, avail, i + 1, true) == (group_taken(rel, avail, i as int, true)
                || (in_group(m, true) && avail.contains(m))));
            assert forall|x: PackageManager| seen_before(rel, i + 1, x) == (seen_before(
                rel,
                i as int,
                x,
            ) || m == x) by {
                if seen_before(rel, i + 1, x) {
                    let j = choose|j: int| 0 <= j < i + 1 && rel[j] == x;
                    if j < i {
                        assert(seen_before(rel, i as int, x));
                    }
                }
            }
        }
        match m {
            PackageManager::Pacman => {
                if !helper {
                    out.push(m);
                }
            },
            PackageManager::Yay | PackageManager::Paru => {
                if !aur_added && installed {
                    aur_added = true;
                    out.push(m);
                }
            },
            PackageManager::Dnf => {
                if installed && !dnf_seen {
                    out.push(m);
                }
                dnf_seen = true;
            },
            PackageManager::Yum => {
                if installed && !dnf && !yum_seen {
                    out.push(m);
                }
                yum_seen = true;
            },
            _ => {
                out.push(m);
            },
        }
    }
    out
}

/// A manager is among the kept managers of `rel[0..n]` exactly when some
/// kept entry before `n` holds it.
proof fn lemma_kept_upto_contains(
    rel: Seq<PackageManager>,
    available: Seq<PackageManager>,
    n: nat,
    x: PackageManager,
)
    requires
        n <= rel.len(),
    ensures
        kept_upto(rel, available, n).contains(x) <==> exists|i: int|
            0 <= i < n && rel[i] == x && #[trigger] kept(rel, available, i),
    decreases n,
{
    if n > 0 {
        let m = (n - 1) as nat;
        lemma_kept_upto_contains(rel, available, m, x);
        let f = kept_upto(rel, available, n);
        let g = kept_upto(rel, available, m);
        if f.contains(x) {
            let k = choose|k: int| 0 <= k < f.len() && f[k] == x;
            if k < g.len() {
                assert(g[k] == x);
            } else {
                assert(rel[m as int] == x && kept(rel, available, m as int));
            }
        }
        if exists|i: int| 0 <= i < n && rel[i] == x && #[trigger] kept(rel, available, i) {
            let i = choose|i: int| 0 <= i < n && rel[i] == x && #[trigger] kept(rel, available, i);
            if i == m {
                assert(f[f.len() - 1] == x);
            } else {
                assert(g.contains(x));
                let k = choose|k: int| 0 <= k < g.len() && g[k] == x;
                assert(f[k] == x);
            }
        }
    }
}

/// A manager is in the filtered list exactly when some kept entry of `rel`
/// holds it.
pub proof fn lemma_filtered_contains(
    rel: Seq<PackageManager>,
    available: Seq<PackageManager>,
    x: PackageManager,
)
    ensures
        filtered(rel, available).contains(x) <==> exists|i: int|
            0 <= i < rel.len() && rel[i] == x && #[trigger] kept(rel, available, i),
{
    lemma_kept_upto_contains(rel, available, rel.len(), x);
}

/// When a group is taken before `n`, some member is its first installed one.
proof fn lemma_first_of_group(
    rel: Seq<PackageManager>,
    available: Seq<PackageManager>,
    n: int,
    aur: bool,
) -> (i: int)
    requires
        0 <= n <= rel.len(),
        group_taken(rel, available, n, aur),
    ensures
        0 <= i < n,
        in_group(rel[i], aur),
        available.contains(rel[i]),
        !group_taken(rel, available, i, aur),
    decreases n,
{
    if group_taken(rel, available, n - 1, aur) {
        lemma_first_of_group(rel, available, n - 1, aur)
    } else {
        let j = choose|j: int|
            0 <= j < n && #[trigger] in_group(rel[j], aur) && available.contains(rel[j]);
        assert(j == n - 1);
        j
    }
}

/// When `m` occurs before `n`, it has a first place.
proof fn lemma_first_place(rel: Seq<PackageManager>, n: int, m: PackageManager) -> (i: int)
    requires
        0 <= n <= rel.len(),
        seen_before(rel, n, m),
    ensures
        0 <= i < n,
        rel[i] == m,
        !seen_before(rel, i, m),
    decreases n,
{
    if seen_before(rel, n - 1, m) {
        lemma_first_place(rel, n - 1, m)
    } else {
        let j = choose|j: int| 0 <= j < n && rel[j] == m;
        assert(j == n - 1);
        j
    }
}

/// Two kept entries of the same group are the same entry.
proof fn lemma_kept_in_group_unique(
    rel: Seq<PackageManager>,
    available: Seq<PackageManager>,
    aur: bool,
    i1: int,
    i2: int,
)
    requires
        0 <= i1 < rel.len(),
        0 <= i2 < rel.len(),
        kept(rel, available, i1),
        kept(rel, available, i2),
        in_group(rel[i1], aur),
        in_group(rel[i2], aur),
    ensures
        i1 == i2,
{
    if i1 < i2 {
        if aur {
            assert(in_group(rel[i1], aur) && available.contains(rel[i1]));
        } else if rel[i2] == rel[i1] {
            assert(seen_before(rel, i2, rel[i1]));
        } else {
            assert(rel[i1] == PackageManager::Dnf || rel[i2] == PackageManager::Dnf);
            if rel[i1] == PackageManager::Dnf {
                assert(rel.contains(PackageManager::Dnf));
            } else {
                assert(rel[i2] == PackageManager::Dnf);
                assert(rel.contains(PackageManager::Dnf));
            }
        }
    } else if i2 < i1 {
        if aur {
            assert(in_group(rel[i2], aur) && available.contains(rel[i2]));
        } else if rel[i2] == rel[i1] {
            assert(seen_before(rel, i1, rel[i2]));
        } else {
            if rel[i1] == PackageManager::Dnf {
                assert(rel.contains(PackageManager::Dnf));
            } else {
                assert(rel[i2] == PackageManager::Dnf);
                assert(rel.contains(PackageManager::Dnf));
            }
        }
    }
}

/// Whether `x` is held by a kept entry of `rel` before `n`.
pub open spec fn from_kept(
    rel: Seq<PackageManager>,
    available: Seq<PackageManager>,
    n: int,
    x: PackageManager,
) -> bool {
    exists|i: int| 0 <= i < n && #[trigger] kept(rel, available, i) && rel[i] == x
}

/// Every entry of the kept list of `rel[0..n]` comes from a kept entry
/// before `n`.
proof fn lemma_kept_upto_origin(rel: Seq<PackageManager>, available: Seq<PackageManager>, n: nat)
    requires
        n <= rel.len(),
    ensures
        forall|k: int|
            0 <= k < kept_upto(rel, available, n).len() ==> from_kept(
                rel,
                available,
                n as int,
                #[trigger] kept_upto(rel, available, n)[k],
            ),
    decreases n,
{
    if n > 0 {
        let m = (n - 1) as nat;
        lemma_kept_upto_origin(rel, available, m);
        let f = kept_upto(rel, available, n);
        let g = kept_upto(rel, available, m);
        assert forall|k: int| 0 <= k < f.len() implies from_kept(
            rel,
            available,
            n as int,
            #[trigger] f[k],
        ) by {
            if k < g.len() {
                assert(f[k] == g[k]);
                assert(from_kept(rel, available, m as int, g[k]));
                let i = choose|i: int|
                    0 <= i < m && #[trigger] kept(rel, available, i) && rel[i] == g[k];
                assert(kept(rel, available, i) && rel[i] == f[k]);
            } else {
                assert(kept(rel, available, m as int) && rel[m as int] == f[k]);
            }
        }
    }
}

/// At most one entry of the kept list of `rel[0..n]` belongs to a group.
proof fn lemma_kept_upto_groups(
    rel: Seq<PackageManager>,
    available: Seq<PackageManager>,
    n: nat,
    aur: bool,
)
    requires
        n <= rel.len(),
    ensures
        forall|k1: int, k2: int|
            0 <= k1 < kept_upto(rel, available, n).len() && 0 <= k2 < kept_upto(
                rel,
                available,
                n,
            ).len() && in_group(#[trigger] kept_upto(rel, available, n)[k1], aur) && in_group(
                #[trigger] kept_upto(rel, available, n)[k2],
                aur,
            ) ==> k1 == k2,
    decreases n,
{
    if n > 0 {
        let m = (n - 1) as nat;
        lemma_kept_upto_groups(rel, available, m, aur);
        lemma_kept_upto_origin(rel, available, m);
        let f = kept_upto(rel, available, n);
        let g = kept_upto(rel, available, m);
        assert forall|k1: int, k2: int|
            0 <= k1 < f.len() && 0 <= k2 < f.len() && in_group(#[trigger] f[k1], aur) && in_group(
                #[trigger] f[k2],
                aur,
            ) implies k1 == k2 by {
            if k1 < g.len() && k2 < g.len() {
                assert(f[k1] == g[k1] && f[k2] == g[k2]);
            } else if k1 < g.len() || k2 < g.len() {
                let k = if k1 < g.len() {
                    k1
                } else {
                    k2
                };
                assert(f[k] == g[k]);
                assert(from_kept(rel, available, m as int, g[k]));
                let i = choose|i: int|
                    0 <= i < m && #[trigger] kept(rel, available, i) && rel[i] == g[k];
                assert(kept(rel, available, m as int) && rel[m as int] == f[f.len() - 1]);
                lemma_kept_in_group_unique(rel, available, aur, i, m as int);
            }
        }
    }
}

/// Every manager of the filtered list comes from `rel`.
pub proof fn law_filtered_from_relevant(
    rel: Seq<PackageManager>,
    available: Seq<PackageManager>,
    x: PackageManager,
)
    requires
        filtered(rel, available).contains(x),
    ensures
        rel.contains(x),
{
    lemma_filtered_contains(rel, available, x);
    let i = choose|i: int| 0 <= i < rel.len() && rel[i] == x && #[trigger] kept(rel, available, i);
    assert(rel[i] == x);
}

/// Of each group, only installed members are run, and at most one of them.
pub proof fn law_one_per_group(
    rel: Seq<PackageManager>,
    available: Seq<PackageManager>,
    aur: bool,
)
    ensures
        forall|k: int|
            0 <= k < filtered(rel, available).len() && in_group(
                #[trigger] filtered(rel, available)[k],
                aur,
            ) ==> available.contains(filtered(rel, available)[k]),
        forall|k1: int, k2: int|
            0 <= k1 < filtered(rel, available).len() && 0 <= k2 < filtered(rel, available).len()
                && in_group(#[trigger] filtered(rel, available)[k1], aur) && in_group(
                #[trigger] filtered(rel, available)[k2],
                aur,
            ) ==> k1 == k2,
{
    lemma_kept_upto_groups(rel, available, rel.len(), aur);
    lemma_kept_upto_origin(rel, available, rel.len());
    let f = filtered(rel, available);
    assert forall|k: int| 0 <= k < f.len() && in_group(#[trigger] f[k], aur) implies available.contains(
        f[k],
    ) by {
        assert(from_kept(rel, available, rel.len() as int, f[k]));
        let i = choose|i: int| 0 <= i < rel.len() && #[trigger] kept(rel, available, i) && rel[i] == f[k];
        assert(kept(rel, available, i));
    }
}

/// Pacman runs exactly when it is relevant and no AUR helper runs; an AUR
/// helper runs exactly when one is relevant and installed. So pacman is
/// skipped only when a helper that updates its packages runs instead.
pub proof fn law_pacman_or_its_helper_runs(
    rel: Seq<PackageManager>,
    available: Seq<PackageManager>,
)
    ensures
        filtered(rel, available).contains(PackageManager::Pacman) <==> (rel.contains(
            PackageManager::Pacman,
        ) && !helper_runs(rel, available)),
        helper_runs(rel, available) <==> exists|k: int|
            0 <= k < filtered(rel, available).len() && #[trigger] in_group(
                filtered(rel, available)[k],
                true,
            ),
{
    let f = filtered(rel, available);
    lemma_filtered_contains(rel, available, PackageManager::Pacman);
    if rel.contains(PackageManager::Pacman) && !helper_runs(rel, available) {
        let i = choose|i: int| 0 <= i < rel.len() && rel[i] == PackageManager::Pacman;
        assert(kept(rel, available, i));
    }
    if helper_runs(rel, available) {
        let i = lemma_first_of_group(rel, available, rel.len() as int, true);
        assert(kept(rel, available, i));
        lemma_filtered_contains(rel, available, rel[i]);
        let k = choose|k: int| 0 <= k < f.len() && f[k] == rel[i];
        assert(in_group(f[k], true));
    }
    if exists|k: int| 0 <= k < f.len() && #[trigger] in_group(f[k], true) {
        let k = choose|k: int| 0 <= k < f.len() && #[trigger] in_group(f[k], true);
        law_one_per_group(rel, available, true);
        assert(available.contains(f[k]));
        assert(f.contains(f[k]));
        law_filtered_from_relevant(rel, available, f[k]);
        let j = choose|j: int| 0 <= j < rel.len() && rel[j] == f[k];
        assert(in_group(rel[j], true) && available.contains(rel[j]));
    }
}

/// The first installed AUR helper in `rel` is the one that runs.
pub proof fn law_first_installed_helper_runs(
    rel: Seq<PackageManager>,
    available: Seq<PackageManager>,
    i: int,
)
    requires
        0 <= i < rel.len(),
        in_group(rel[i], true),
        available.contains(rel[i]),
        !group_taken(rel, available, i, true),
    ensures
        filtered(rel, available).contains(rel[i]),
{
    assert(kept(rel, available, i));
    lemma_filtered_contains(rel, available, rel[i]);
}

/// When dnf is relevant and installed, dnf runs and yum does not.
pub proof fn law_dnf_preferred_over_yum(rel: Seq<PackageManager>, available: Seq<PackageManager>)
    requires
        rel.contains(PackageManager::Dnf),
        available.contains(PackageManager::Dnf),
    ensures
        filtered(rel, available).contains(PackageManager::Dnf),
        !filtered(rel, available).contains(PackageManager::Yum),
{
    let j = choose|j: int| 0 <= j < rel.len() && rel[j] == PackageManager::Dnf;
    assert(seen_before(rel, rel.len() as int, PackageManager::Dnf));
    let i = lemma_first_place(rel, rel.len() as int, PackageManager::Dnf);
    assert(kept(rel, available, i));
    lemma_filtered_contains(rel, available, PackageManager::Dnf);
    lemma_filtered_contains(rel, available, PackageManager::Yum);
}

/// When dnf does not run, an installed and relevant yum does.
pub proof fn law_yum_runs_without_dnf(rel: Seq<PackageManager>, available: Seq<PackageManager>)
    requires
        !dnf_runs(rel, available),
        rel.contains(PackageManager::Yum),
        available.contains(PackageManager::Yum),
    ensures
        filtered(rel, available).contains(PackageManager::Yum),
{
    let j = choose|j: int| 0 <= j < rel.len() && rel[j] == PackageManager::Yum;
    assert(seen_before(rel, rel.len() as int, PackageManager::Yum));
    let i = lemma_first_place(rel, rel.len() as int, PackageManager::Yum);
    assert(kept(rel, available, i));
    lemma_filtered_contains(rel, available, PackageManager::Yum);
}

/// A manager outside pacman and the two groups is never dropped.
pub proof fn law_other_managers_kept(
    rel: Seq<PackageManager>,
    available: Seq<PackageManager>,
    m: PackageManager,
)
    requires
        rel.contains(m),
        m != PackageManager::Pacman,
        !in_group(m, true),
        !in_group(m, false),
    ensures
        filtered(rel, available).contains(m),
{
    let i = choose|i: int| 0 <= i < rel.len() && rel[i] == m;
    assert(kept(rel, available, i));
    lemma_filtered_contains(rel, available, m);
}

// ---------------------------------------------------------------------------
// Updating everything
// ---------------------------------------------------------------------------

/// One step of updating everything.
#[derive(Debug, Clone, Copy, PartialEq, Eq, Structural)]
pub enum UpdateStep {
    /// Run the manager's update command.
    Run(PackageManager),
    /// Skip the manager: it is not installed.
    Skip(PackageManager),
}

/// The step for a manager: run it when installed, else skip it.
pub open spec fn step_for(m: PackageManager, available: Seq<PackageManager>) -> UpdateStep {
    if available.contains(m) {
        UpdateStep::Run(m)
    } else {
        UpdateStep::Skip(m)
    }
}

/// The steps of updating everything: one per manager left after dropping
/// the redundant ones, in order.
pub open spec fn update_plan(rel: Seq<PackageManager>, available: Seq<PackageManager>) -> Seq<
    UpdateStep,
> {
    filtered(rel, available).map_values(|m: PackageManager| step_for(m, available))
}

/// Plans the update of every relevant manager.
pub fn plan_update_all(relevant: &[PackageManager], available: &[PackageManager]) -> (r: Vec<
    UpdateStep,
>)
    ensures
        r@ == update_plan(relevant@, available@),
{
    let managers = filter_redundant_managers(relevant, available);
    let mut steps: Vec<UpdateStep> = Vec::new();
    for i in 0..managers.len()
        invariant
            managers@ == filtered(relevant@, available@),
            steps@ == managers@.take(i as int).map_values(
                |m: PackageManager| step_for(m, available@),
            ),
    {
        let m = managers[i];
        if contains_manager(available, m) {
            steps.push(UpdateStep::Run(m));
        } else {
            steps.push(UpdateStep::Skip(m));
        }
        assert(steps@ =~= managers@.take(i + 1).map_values(
            |m: PackageManager| step_for(m, available@),
        ));
    }
    assert(managers@.take(managers.len() as int) =~= managers@);
    steps
}

/// How a step of updating everything ended.
#[derive(Debug, Clone, Copy, PartialEq, Eq, Structural)]
pub enum StepOutcome {
    Succeeded,
    Failed,
    Skipped,
}

/// How updating everything ended, as a whole.
#[derive(Debug, Clone, Copy, PartialEq, Eq, Structural)]
pub enum UpdateSummary {
    /// At least one update failed.
    SomeFailed,
    /// None failed, but at least one manager was skipped.
    SomeSkipped,
    /// Every manager was updated.
    AllSucceeded,
}

/// The summary of a run: failures first, then skips.
pub open spec fn summary_of(outcomes: Seq<StepOutcome>) -> UpdateSummary {
    if outcomes.contains(StepOutcome::Failed) {
        UpdateSummary::SomeFailed
    } else if outcomes.contains(StepOutcome::Skipped) {
        UpdateSummary::SomeSkipped
    } else {
        UpdateSummary::AllSucceeded
    }
}

/// Sums up how the steps of updating everything ended.
pub fn summarize_update_all(outcomes: &[StepOutcome]) -> (r: UpdateSummary)
    ensures
        r == summary_of(outcomes@),
{
    let mut any_failed = false;
    let mut any_skipped = false;
    for i in 0..outcomes.len()
        invariant
            any_failed == outcomes@.take(i as int).contains(StepOutcome::Failed),
            any_skipped == outcomes@.take(i as int).contains(StepOutcome::Skipped),
    {
        let ghost pre = outcomes@.take(i as int);
        let ghost next = outcomes@.take(i + 1);
        assert(next =~= pre.push(outcomes@[i as int]));
        assert forall|x: StepOutcome| next.contains(x) <==> (pre.contains(x) || outcomes@[i as int]
            == x) by {
            if next.contains(x) {
                let k = choose|k: int| 0 <= k < next.len() && next[k] == x;
                if k < pre.len() {
                    assert(pre[k] == x);
                }
            }
            if pre.contains(x) {
                let k = choose|k: int| 0 <= k < pre.len() && pre[k] == x;
                assert(next[k] == x);
            }
            assert(next[i as int] == outcomes@[i as int]);
        }
        match outcomes[i] {
            StepOutcome::Failed => {
                any_failed = true;
            },
            StepOutcome::Skipped => {
                any_skipped = true;
            },
            StepOutcome::Succeeded => {},
        }
    }
    assert(outcomes@.take(outcomes.len() as int) =~= outcomes@);
    if any_failed {
        UpdateSummary::SomeFailed
    } else if any_skipped {
        UpdateSummary::SomeSkipped
    } else {
        UpdateSummary::AllSucceeded
    }
}


/// The update command of each manager, as the tool runs it: every one of
/// them upgrades the installed packages, refreshing the package index first
/// where the manager needs it.
pub proof fn law_update_commands()
    ensures
        update_command_text(PackageManager::Apt) == "sudo apt update && sudo apt upgrade -y"@,
        update_command_text(PackageManager::Dnf) == "sudo dnf upgrade -y"@,
        update_command_text(PackageManager::Yum) == "sudo yum update -y"@,
        update_command_text(PackageManager::Pacman) == "sudo pacman -Syu --noconfirm"@,
        update_command_text(PackageManager::Yay) == "yay -Syu --noconfirm"@,
        update_command_text(PackageManager::Paru) == "paru -Syu --noconfirm"@,
        update_command_text(PackageManager::Zypper)
            == "sudo zypper refresh && sudo zypper update -y"@,
        update_command_text(PackageManager::Apk) == "sudo apk update && sudo apk upgrade"@,
        update_command_text(PackageManager::Xbps) == "sudo xbps-install -Su"@,
        update_command_text(PackageManager::Emerge)
            == "sudo emaint -a sync && sudo emerge -uDN @world"@,
        update_command_text(PackageManager::Flatpak) == "flatpak update -y"@,
        update_command_text(PackageManager::Snap) == "sudo snap refresh"@,
{
}

/// Updating everything runs exactly the installed managers left after
/// dropping the redundant ones, in order, and skips the others: a step runs
/// a manager only when it is installed, and every manager left that is not
/// installed is skipped.
pub proof fn law_plan_runs_only_installed(
    rel: Seq<PackageManager>,
    available: Seq<PackageManager>,
)
    ensures
        update_plan(rel, available).len() == filtered(rel, available).len(),
        forall|k: int|
            0 <= k < update_plan(rel, available).len() ==> {
                let m = filtered(rel, available)[k];
                ||| (#[trigger] update_plan(rel, available)[k] == UpdateStep::Run(m)
                    && available.contains(m))
                ||| (update_plan(rel, available)[k] == UpdateStep::Skip(m) && !available.contains(
                    m,
                ))
            },
        forall|k: int|
            0 <= k < update_plan(rel, available).len() ==> match #[trigger] update_plan(
                rel,
                available,
            )[k] {
                UpdateStep::Run(m) => available.contains(m),
                UpdateStep::Skip(m) => !available.contains(m),
            },
{
}

/// One failed update makes the whole run report failures, wherever it
/// comes.
pub proof fn law_any_failure_is_reported(outcomes: Seq<StepOutcome>, i: int)
    requires
        0 <= i < outcomes.len(),
        outcomes[i] == StepOutcome::Failed,
    ensures
        summary_of(outcomes) == UpdateSummary::SomeFailed,
{
    assert(outcomes.contains(StepOutcome::Failed));
}

/// Without failures, one skipped manager makes the run report skips.
pub proof fn law_skip_is_reported(outcomes: Seq<StepOutcome>, i: int)
    requires
        forall|j: int| 0 <= j < outcomes.len() ==> outcomes[j] != StepOutcome::Failed,
        0 <= i < outcomes.len(),
        outcomes[i] == StepOutcome::Skipped,
    ensures
        summary_of(outcomes) == UpdateSummary::SomeSkipped,
{
    assert(outcomes.contains(StepOutcome::Skipped));
}

/// The run reports full success exactly when every update succeeded.
pub proof fn law_success_only_when_all_succeeded(outcomes: Seq<StepOutcome>)
    ensures
        summary_of(outcomes) == UpdateSummary::AllSucceeded <==> forall|j: int|
            0 <= j < outcomes.len() ==> outcomes[j] == StepOutcome::Succeeded,
{
    if summary_of(outcomes) == UpdateSummary::AllSucceeded {
        assert forall|j: int| 0 <= j < outcomes.len() implies outcomes[j]
            == StepOutcome::Succeeded by {
            if outcomes[j] == StepOutcome::Failed {
                assert(outcomes.contains(StepOutcome::Failed));
            }
            if outcomes[j] == StepOutcome::Skipped {
                assert(outcomes.contains(StepOutcome::Skipped));
            }
        }
    }
}

} // verus!

use vstd::prelude::*;
use crate::manager::PackageManager;
use crate::os_release::{os_release_id, os_release_like, parse_os_release, strings};
use crate::text::str_eq;

verus! {

// ---------------------------------------------------------------------------
// Which managers a distribution uses
// ---------------------------------------------------------------------------

/// The package managers that a distribution identifier stands for, in the
/// order in which the tool offers them.
pub open spec fn family(d: Seq<char>) -> Seq<PackageManager> {
    if d == "debian"@ || d == "ubuntu"@ || d == "linuxmint"@ || d == "pop"@ || d == "pop_os"@
        || d == "popos"@ || d == "kali"@ || d == "raspbian"@ {
        seq![PackageManager::Apt]
    } else if d == "fedora"@ || d == "rhel"@ || d == "centos"@ {
        seq![PackageManager::Dnf, PackageManager::Yum]
    } else if d == "centos-stream"@ || d == "rocky"@ || d == "almalinux"@ {
        seq![PackageManager::Dnf]
    } else if d == "arch"@ || d == "manjaro"@ || d == "endeavouros"@ || d == "endeavor"@
        || d == "endeavoros"@ {
        seq![PackageManager::Pacman, PackageManager::Yay, PackageManager::Paru]
    } else if d == "opensuse"@ || d == "suse"@ || d == "opensuse-leap"@ || d
        == "opensuse-tumbleweed"@ {
        seq![PackageManager::Zypper]
    } else if d == "alpine"@ {
        seq![PackageManager::Apk]
    } else if d == "void"@ {
        seq![PackageManager::Xbps]
    } else if d == "gentoo"@ {
        seq![PackageManager::Emerge]
    } else {
        Seq::empty()
    }
}

/// The managers of all the named distributions, one family after another.
pub open spec fn mentioned(names: Seq<Seq<char>>) -> Seq<PackageManager>
    decreases names.len(),
{
    if names.len() == 0 {
        Seq::empty()
    } else {
        mentioned(names.drop_last()) + family(names.last())
    }
}

/// `s` with each element kept at its first occurrence only.
pub open spec fn dedup(s: Seq<PackageManager>) -> Seq<PackageManager>
    decreases s.len(),
{
    if s.len() == 0 {
        Seq::empty()
    } else {
        let d = dedup(s.drop_last());
        if d.contains(s.last()) {
            d
        } else {
            d.push(s.last())
        }
    }
}

/// The managers offered when no named distribution is known.
pub open spec fn fallback_managers() -> Seq<PackageManager> {
    seq![
        PackageManager::Apt,
        PackageManager::Dnf,
        PackageManager::Pacman,
        PackageManager::Flatpak,
        PackageManager::Snap,
    ]
}

/// The managers that apply to a system whose distribution identifiers are
/// `names` (its `ID` first, then its `ID_LIKE` entries): those of the known
/// distributions in order of first mention, or the fallback list when none
/// is known, followed by Flatpak and Snap where missing.
pub open spec fn relevant_managers(names: Seq<Seq<char>>) -> Seq<PackageManager> {
    let m = mentioned(names);
    let base = if m.len() == 0 {
        fallback_managers()
    } else {
        m
    };
    dedup(base + seq![PackageManager::Flatpak, PackageManager::Snap])
}

/// Whether `v` holds `m`.
pub fn contains_manager(v: &[PackageManager], m: PackageManager) -> (r: bool)
    ensures
        r == v@.contains(m),
{
    for i in 0..v.len()
        invariant
            forall|j: int| 0 <= j < i ==> v@[j] != m,
    {
        if v[i] == m {
            assert(v@[i as int] == m);
            return true;
        }
    }
    false
}

/// Appends to `v` those of `items` that it does not hold yet.
fn add_all(v: &mut Vec<PackageManager>, items: &Vec<PackageManager>, Ghost(seen): Ghost<
    Seq<PackageManager>,
>)
    requires
        old(v)@ == dedup(seen),
    ensures
        final(v)@ == dedup(seen + items@),
{
    assert(seen + items@.take(0) =~= seen);
    for j in 0..items.len()
        invariant
            v@ == dedup(seen + items@.take(j as int)),
    {
        let m = items[j];
        let ghost s = seen + items@.take(j + 1);
        assert(s.drop_last() =~= seen + items@.take(j as int));
        assert(s.last() == m);
        if !contains_manager(v.as_slice(), m) {
            v.push(m);
        }
    }
    assert(items@.take(items.len() as int) =~= items@);
}

/// The managers that a distribution identifier stands for.
pub fn distro_family(d: &str) -> (r: Vec<PackageManager>)
    ensures
        r@ == family(d@),
{
    if str_eq(d, "debian") || str_eq(d, "ubuntu") || str_eq(d, "linuxmint") || str_eq(d, "pop")
        || str_eq(d, "pop_os") || str_eq(d, "popos") || str_eq(d, "kali") || str_eq(
        d,
        "raspbian",
    ) {
        vec![PackageManager::Apt]
    } else if str_eq(d, "fedora") || str_eq(d, "rhel") || str_eq(d, "centos") {
        vec![PackageManager::Dnf, PackageManager::Yum]
    } else if str_eq(d, "centos-stream") || str_eq(d, "rocky") || str_eq(d, "almalinux") {
        vec![PackageManager::Dnf]
    } else if str_eq(d, "arch") || str_eq(d, "manjaro") || str_eq(d, "endeavouros") || str_eq(
        d,
        "endeavor",
    ) || str_eq(d, "endeavoros") {
        vec![PackageManager::Pacman, PackageManager::Yay, PackageManager::Paru]
    } else if str_eq(d, "opensuse") || str_eq(d, "suse") || str_eq(d, "opensuse-leap") || str_eq(
        d,
        "opensuse-tumbleweed",
    ) {
        vec![PackageManager::Zypper]
    } else if str_eq(d, "alpine") {
        vec![PackageManager::Apk]
    } else if str_eq(d, "void") {
        vec![PackageManager::Xbps]
    } else if str_eq(d, "gentoo") {
        vec![PackageManager::Emerge]
    } else {
        Vec::new()
    }
}

/// A nonempty sequence has an element after dedup.
proof fn lemma_dedup_empty(s: Seq<PackageManager>)
    ensures
        dedup(s).len() == 0 <==> s.len() == 0,
    decreases s.len(),
{
    if s.len() > 0 {
        lemma_dedup_empty(s.drop_last());
    }
}

/// The package managers that apply to a distribution, from its identifier
/// and the identifiers of the distributions it derives from.
pub fn detect_relevant_managers(distro_id: &str, distro_like: &[String]) -> (r: Vec<
    PackageManager,
>)
    ensures
        r@ == relevant_managers(seq![distro_id@] + strings(distro_like@)),
{
    let ghost names = seq![distro_id@] + strings(distro_like@);
    let mut managers: Vec<PackageManager> = Vec::new();
    let fam = distro_family(distro_id);
    assert(names.take(1).drop_last() =~= Seq::<Seq<char>>::empty());
    assert(names.take(1).last() == distro_id@);
    assert(mentioned(Seq::<Seq<char>>::empty()) == Seq::<PackageManager>::empty());
    add_all(&mut managers, &fam, Ghost(Seq::empty()));
    assert(Seq::<PackageManager>::empty() + fam@ =~= mentioned(names.take(1)));
    for i in 0..distro_like.len()
        invariant
            names == seq![distro_id@] + strings(distro_like@),
            managers@ == dedup(mentioned(names.take(i + 1))),
    {
        let fam = distro_family(distro_like[i].as_str());
        let ghost prev = names.take(i + 1);
        assert(names.take(i + 2).drop_last() =~= prev);
        assert(names.take(i + 2).last() == distro_like@[i as int]@);
        add_all(&mut managers, &fam, Ghost(mentioned(prev)));
    }
    assert(names.take(distro_like.len() + 1) =~= names);
    let ghost m = mentioned(names);
    proof {
        lemma_dedup_empty(m);
    }
    let ghost base = if m.len() == 0 {
        fallback_managers()
    } else {
        m
    };
    if managers.len() == 0 {
        let fallback = vec![
            PackageManager::Apt,
            PackageManager::Dnf,
            PackageManager::Pacman,
            PackageManager::Flatpak,
            PackageManager::Snap,
        ];
        let mut fresh: Vec<PackageManager> = Vec::new();
        add_all(&mut fresh, &fallback, Ghost(Seq::empty()));
        assert(Seq::<PackageManager>::empty() + fallback@ =~= fallback_managers());
        managers = fresh;
    }
    let tail = vec![PackageManager::Flatpak, PackageManager::Snap];
    add_all(&mut managers, &tail, Ghost(base));
    managers
}


// ---------------------------------------------------------------------------
// Properties of the relevant managers
// ---------------------------------------------------------------------------

/// No manager occurs twice in `s`.
pub open spec fn no_duplicates(s: Seq<PackageManager>) -> bool {
    forall|i: int, j: int| 0 <= i < j < s.len() ==> s[i] != s[j]
}

/// Every occurrence of `y` in `s` comes after an occurrence of `x`.
pub open spec fn precedes(s: Seq<PackageManager>, x: PackageManager, y: PackageManager) -> bool {
    forall|j: int|
        0 <= j < s.len() && #[trigger] s[j] == y ==> exists|i: int| 0 <= i < j && s[i] == x
}

/// The pairs of managers of which the first is always offered before the
/// second: dnf before yum, pacman before its AUR helpers, yay before paru.
pub open spec fn ordered_pair(x: PackageManager, y: PackageManager) -> bool {
    ||| x == PackageManager::Dnf && y == PackageManager::Yum
    ||| x == PackageManager::Pacman && y == PackageManager::Yay
    ||| x == PackageManager::Pacman && y == PackageManager::Paru
    ||| x == PackageManager::Yay && y == PackageManager::Paru
}

proof fn lemma_dedup_contains(s: Seq<PackageManager>, x: PackageManager)
    ensures
        dedup(s).contains(x) <==> s.contains(x),
    decreases s.len(),
{
    if s.len() > 0 {
        let p = s.drop_last();
        lemma_dedup_contains(p, x);
        // s holds x exactly when p does or x is its last element.
        if s.contains(x) {
            let i = choose|i: int| 0 <= i < s.len() && s[i] == x;
            if i < p.len() {
                assert(p[i] == x);
            }
        }
        if p.contains(x) {
            let i = choose|i: int| 0 <= i < p.len() && p[i] == x;
            assert(s[i] == x);
        }
        assert(s[s.len() - 1] == s.last());
        let d = dedup(p);
        if !d.contains(s.last()) {
            let ds = d.push(s.last());
            if ds.contains(x) {
                let k = choose|k: int| 0 <= k < ds.len() && ds[k] == x;
                if k < d.len() {
                    assert(d[k] == x);
                }
            }
            if d.contains(x) {
                let k = choose|k: int| 0 <= k < d.len() && d[k] == x;
                assert(ds[k] == x);
            }
            assert(ds[d.len() as int] == s.last());
        } else {
            lemma_dedup_contains(p, s.last());
        }
    }
}

proof fn lemma_dedup_no_duplicates(s: Seq<PackageManager>)
    ensures
        no_duplicates(dedup(s)),
    decreases s.len(),
{
    if s.len() > 0 {
        lemma_dedup_no_duplicates(s.drop_last());
    }
}

proof fn lemma_dedup_distinct(s: Seq<PackageManager>)
    requires
        no_duplicates(s),
    ensures
        dedup(s) == s,
    decreases s.len(),
{
    if s.len() > 0 {
        let p = s.drop_last();
        lemma_dedup_distinct(p);
        lemma_dedup_contains(p, s.last());
        assert(!p.contains(s.last()));
        assert(p.push(s.last()) =~= s);
    }
}

proof fn lemma_dedup_precedes(s: Seq<PackageManager>, x: PackageManager, y: PackageManager)
    requires
        precedes(s, x, y),
        x != y,
    ensures
        precedes(dedup(s), x, y),
    decreases s.len(),
{
    if s.len() > 0 {
        let p = s.drop_last();
        assert forall|j: int| 0 <= j < p.len() && #[trigger] p[j] == y implies exists|i: int|
            0 <= i < j && p[i] == x by {
            assert(s[j] == y);
            let i = choose|i: int| 0 <= i < j && s[i] == x;
            assert(p[i] == x);
        }
        lemma_dedup_precedes(p, x, y);
        let d = dedup(p);
        if !d.contains(s.last()) && s.last() == y {
            assert(s[s.len() - 1] == y);
            let i = choose|i: int| 0 <= i < s.len() - 1 && s[i] == x;
            assert(p[i] == x);
            lemma_dedup_contains(p, x);
            let k = choose|k: int| 0 <= k < d.len() && d[k] == x;
            let ds = dedup(s);
            assert forall|j: int| 0 <= j < ds.len() && #[trigger] ds[j] == y implies exists|i: int|
                0 <= i < j && ds[i] == x by {
                if j == d.len() {
                    assert(ds[k] == x);
                } else {
                    assert(d[j] == y);
                    let i = choose|i: int| 0 <= i < j && d[i] == x;
                    assert(ds[i] == x);
                }
            }
        } else if !d.contains(s.last()) {
            let ds = dedup(s);
            assert forall|j: int| 0 <= j < ds.len() && #[trigger] ds[j] == y implies exists|i: int|
                0 <= i < j && ds[i] == x by {
                assert(j < d.len());
                assert(d[j] == y);
                let i = choose|i: int| 0 <= i < j && d[i] == x;
                assert(ds[i] == x);
            }
        }
    }
}

proof fn lemma_precedes_concat(
    a: Seq<PackageManager>,
    b: Seq<PackageManager>,
    x: PackageManager,
    y: PackageManager,
)
    requires
        precedes(a, x, y),
        precedes(b, x, y),
    ensures
        precedes(a + b, x, y),
{
    let s = a + b;
    assert forall|j: int| 0 <= j < s.len() && #[trigger] s[j] == y implies exists|i: int|
        0 <= i < j && s[i] == x by {
        if j < a.len() {
            assert(a[j] == y);
            let i = choose|i: int| 0 <= i < j && a[i] == x;
            assert(s[i] == x);
        } else {
            assert(b[j - a.len()] == y);
            let i = choose|i: int| 0 <= i < j - a.len() && b[i] == x;
            assert(s[i + a.len()] == x);
        }
    }
}

proof fn lemma_family_precedes(d: Seq<char>, x: PackageManager, y: PackageManager)
    requires
        ordered_pair(x, y),
    ensures
        precedes(family(d), x, y),
{
    let f = family(d);
    assert forall|j: int| 0 <= j < f.len() && #[trigger] f[j] == y implies exists|i: int|
        0 <= i < j && f[i] == x by {
        if f.len() == 3 {
            assert(f[0] == PackageManager::Pacman);
            assert(f[1] == PackageManager::Yay);
        } else if f.len() == 2 {
            assert(f[0] == PackageManager::Dnf);
        }
    }
}

proof fn lemma_mentioned_precedes(names: Seq<Seq<char>>, x: PackageManager, y: PackageManager)
    requires
        ordered_pair(x, y),
    ensures
        precedes(mentioned(names), x, y),
    decreases names.len(),
{
    if names.len() > 0 {
        lemma_mentioned_precedes(names.drop_last(), x, y);
        lemma_family_precedes(names.last(), x, y);
        lemma_precedes_concat(mentioned(names.drop_last()), family(names.last()), x, y);
    }
}

/// Flatpak and Snap are always offered.
pub proof fn law_relevant_offers_flatpak_and_snap(names: Seq<Seq<char>>)
    ensures
        relevant_managers(names).contains(PackageManager::Flatpak),
        relevant_managers(names).contains(PackageManager::Snap),
{
    let m = mentioned(names);
    let base = if m.len() == 0 {
        fallback_managers()
    } else {
        m
    };
    let s = base + seq![PackageManager::Flatpak, PackageManager::Snap];
    assert(s[base.len() as int] == PackageManager::Flatpak);
    assert(s[base.len() as int + 1] == PackageManager::Snap);
    lemma_dedup_contains(s, PackageManager::Flatpak);
    lemma_dedup_contains(s, PackageManager::Snap);
}

/// No manager is offered twice.
pub proof fn law_relevant_no_duplicates(names: Seq<Seq<char>>)
    ensures
        no_duplicates(relevant_managers(names)),
{
    let m = mentioned(names);
    let base = if m.len() == 0 {
        fallback_managers()
    } else {
        m
    };
    lemma_dedup_no_duplicates(base + seq![PackageManager::Flatpak, PackageManager::Snap]);
}

/// When no distribution is known, the fallback list is offered as it is.
pub proof fn law_relevant_fallback(names: Seq<Seq<char>>)
    requires
        mentioned(names).len() == 0,
    ensures
        relevant_managers(names) == fallback_managers(),
{
    let f = fallback_managers();
    let s = f + seq![PackageManager::Flatpak, PackageManager::Snap];
    assert(s.drop_last() =~= f.push(PackageManager::Flatpak));
    assert(s.drop_last().drop_last() =~= f);
    assert(f[3] == PackageManager::Flatpak);
    assert(f[4] == PackageManager::Snap);
    lemma_dedup_distinct(f);
    assert(dedup(s.drop_last()) == dedup(f));
}

/// A manager is offered exactly when a known distribution names it, or it
/// is Flatpak or Snap, or no distribution is known and it is in the
/// fallback list.
pub proof fn law_relevant_members(names: Seq<Seq<char>>, x: PackageManager)
    ensures
        relevant_managers(names).contains(x) <==> (mentioned(names).contains(x) || x
            == PackageManager::Flatpak || x == PackageManager::Snap || (mentioned(names).len() == 0
            && fallback_managers().contains(x))),
{
    let m = mentioned(names);
    let f = fallback_managers();
    let base = if m.len() == 0 {
        f
    } else {
        m
    };
    let t = seq![PackageManager::Flatpak, PackageManager::Snap];
    let s = base + t;
    lemma_dedup_contains(s, x);
    if s.contains(x) {
        let k = choose|k: int| 0 <= k < s.len() && s[k] == x;
        if k < base.len() {
            assert(base[k] == x);
        }
    }
    if base.contains(x) {
        let k = choose|k: int| 0 <= k < base.len() && base[k] == x;
        assert(s[k] == x);
    }
    if x == PackageManager::Flatpak {
        assert(s[base.len() as int] == x);
    }
    if x == PackageManager::Snap {
        assert(s[base.len() as int + 1] == x);
    }
    if m.len() == 0 && f.contains(x) {
        let k = choose|k: int| 0 <= k < f.len() && f[k] == x;
        assert(s[k] == x);
    }
}

/// dnf is offered before yum, pacman before yay and paru, and yay before
/// paru: whenever the second is offered, the first is offered earlier.
pub proof fn law_relevant_order(names: Seq<Seq<char>>, x: PackageManager, y: PackageManager)
    requires
        ordered_pair(x, y),
    ensures
        precedes(relevant_managers(names), x, y),
{
    let m = mentioned(names);
    let f = fallback_managers();
    let base = if m.len() == 0 {
        f
    } else {
        m
    };
    let t = seq![PackageManager::Flatpak, PackageManager::Snap];
    lemma_mentioned_precedes(names, x, y);
    assert(precedes(f, x, y)) by {
        assert forall|j: int| 0 <= j < f.len() && #[trigger] f[j] == y implies exists|i: int|
            0 <= i < j && f[i] == x by {
            assert(false);
        }
    }
    assert(precedes(t, x, y)) by {
        assert forall|j: int| 0 <= j < t.len() && #[trigger] t[j] == y implies exists|i: int|
            0 <= i < j && t[i] == x by {
            assert(false);
        }
    }
    lemma_precedes_concat(base, t, x, y);
    lemma_dedup_precedes(base + t, x, y);
}


// ---------------------------------------------------------------------------
// Which managers are installed
// ---------------------------------------------------------------------------

/// The order in which the managers are looked for on the system.
pub open spec fn probe_order_spec() -> Seq<PackageManager> {
    seq![
        PackageManager::Pacman,
        PackageManager::Yay,
        PackageManager::Paru,
        PackageManager::Apt,
        PackageManager::Dnf,
        PackageManager::Yum,
        PackageManager::Xbps,
        PackageManager::Emerge,
        PackageManager::Zypper,
        PackageManager::Apk,
        PackageManager::Flatpak,
        PackageManager::Snap,
    ]
}

/// The managers to look for, in order.
pub fn probe_order() -> (r: Vec<PackageManager>)
    ensures
        r@ == probe_order_spec(),
{
    let r = vec![
        PackageManager::Pacman,
        PackageManager::Yay,
        PackageManager::Paru,
        PackageManager::Apt,
        PackageManager::Dnf,
        PackageManager::Yum,
        PackageManager::Xbps,
        PackageManager::Emerge,
        PackageManager::Zypper,
        PackageManager::Apk,
        PackageManager::Flatpak,
        PackageManager::Snap,
    ];
    assert(r@ =~= probe_order_spec());
    r
}

/// How the presence of a manager is found out.
#[derive(Debug, Clone, Copy, PartialEq, Eq, Structural)]
pub enum Probe {
    /// An executable file with the manager's name lies on the `PATH`.
    Binary,
    /// The `snap` and `systemctl` binaries exist and the `snapd` service is
    /// active (see [`snap_available`]).
    SnapService,
}

/// How the presence of a manager is found out: Snap needs its service,
/// every other manager only its binary.
pub fn probe_for(m: PackageManager) -> (r: Probe)
    ensures
        r == (if m == PackageManager::Snap {
            Probe::SnapService
        } else {
            Probe::Binary
        }),
{
    match m {
        PackageManager::Snap => Probe::SnapService,
        _ => Probe::Binary,
    }
}

/// Whether Snap can be used: it needs its binary, and systemd, whose
/// `snapd` service must be active.
pub fn snap_available(snap_binary: bool, systemctl_binary: bool, snapd_active: bool) -> (r: bool)
    ensures
        r == (snap_binary && systemctl_binary && snapd_active),
{
    if !snap_binary {
        return false;
    }
    if !systemctl_binary {
        return false;
    }
    snapd_active
}

/// Whether a file with permission bits `mode` can be executed by someone:
/// one of its execute bits (owner, group, others) is set.
pub fn is_executable(mode: u32) -> (r: bool)
    ensures
        r == (mode & 0o111u32 != 0),
{
    mode & 0o111 != 0
}

/// The elements of `ms` whose entry in `found` is true, in order.
pub open spec fn select_found(ms: Seq<PackageManager>, found: Seq<bool>) -> Seq<PackageManager>
    decreases ms.len(),
{
    if ms.len() == 0 || found.len() == 0 {
        Seq::empty()
    } else if found.last() {
        select_found(ms.drop_last(), found.drop_last()).push(ms.last())
    } else {
        select_found(ms.drop_last(), found.drop_last())
    }
}

/// The installed managers, in the order of [`probe_order`], from the result
/// of probing each of them in that order.
pub fn detect_available_managers(found: &[bool]) -> (r: Vec<PackageManager>)
    requires
        found@.len() == probe_order_spec().len(),
    ensures
        r@ == select_found(probe_order_spec(), found@),
        forall|i: int|
            0 <= i < found@.len() ==> (r@.contains(#[trigger] probe_order_spec()[i])
                <==> found@[i]),
{
    let order = probe_order();
    let mut managers: Vec<PackageManager> = Vec::new();
    for i in 0..order.len()
        invariant
            order@ == probe_order_spec(),
            found@.len() == order@.len(),
            managers@ == select_found(order@.take(i as int), found@.take(i as int)),
    {
        assert(order@.take(i + 1).drop_last() =~= order@.take(i as int));
        assert(found@.take(i + 1).drop_last() =~= found@.take(i as int));
        if found[i] {
            managers.push(order[i]);
        }
    }
    assert(order@.take(order.len() as int) =~= order@);
    assert(found@.take(order.len() as int) =~= found@);
    proof {
        let ms = probe_order_spec();
        assert(no_duplicates(ms));
        assert forall|i: int| 0 <= i < found@.len() implies (managers@.contains(
            #[trigger] ms[i],
        ) <==> found@[i]) by {
            lemma_select_found_contains(ms, found@, ms[i]);
            if managers@.contains(ms[i]) {
                let j = choose|j: int| 0 <= j < ms.len() && found@[j] && ms[j] == ms[i];
                assert(j == i);
            }
        }
    }
    managers
}

/// A manager is selected exactly when some entry holding it was found.
proof fn lemma_select_found_contains(ms: Seq<PackageManager>, found: Seq<bool>, x: PackageManager)
    requires
        ms.len() == found.len(),
    ensures
        select_found(ms, found).contains(x) <==> exists|j: int|
            0 <= j < ms.len() && found[j] && ms[j] == x,
    decreases ms.len(),
{
    if ms.len() > 0 {
        let pm = ms.drop_last();
        let pf = found.drop_last();
        lemma_select_found_contains(pm, pf, x);
        let s = select_found(ms, found);
        let t = select_found(pm, pf);
        if s.contains(x) {
            let k = choose|k: int| 0 <= k < s.len() && s[k] == x;
            if k < t.len() {
                assert(t[k] == x);
                let j = choose|j: int| 0 <= j < pm.len() && pf[j] && pm[j] == x;
                assert(found[j] && ms[j] == x);
            } else {
                assert(found[ms.len() - 1] && ms[ms.len() - 1] == x);
            }
        }
        if exists|j: int| 0 <= j < ms.len() && found[j] && ms[j] == x {
            let j = choose|j: int| 0 <= j < ms.len() && found[j] && ms[j] == x;
            if j == ms.len() - 1 {
                assert(s[s.len() - 1] == x);
            } else {
                assert(pf[j] && pm[j] == x);
                let k = choose|k: int| 0 <= k < t.len() && t[k] == x;
                assert(s[k] == x);
            }
        }
    }
}

// ---------------------------------------------------------------------------
// The system
// ---------------------------------------------------------------------------

/// What the tool knows of the system it runs on.
#[derive(Debug)]
pub struct SystemInfo {
    /// The distribution's identifier.
    pub distro_id: String,
    /// The identifiers of the distributions it derives from.
    pub distro_like: Vec<String>,
    /// The managers installed, in the order of [`probe_order`].
    pub available_managers: Vec<PackageManager>,
    /// The managers that apply to the distribution, in the order offered.
    pub relevant_managers: Vec<PackageManager>,
    /// Whether the system is image based (rpm-ostree), where only
    /// application layers are updated in place.
    pub is_immutable: bool,
}

/// The identifiers of image-based distributions.
pub open spec fn immutable_distro(id: Seq<char>) -> bool {
    id == "silverblue"@ || id == "kinoite"@ || id == "fedora-coreos"@
}

/// The message when no supported package manager is installed.
pub open spec fn no_manager_message() -> Seq<char> {
    "Tidak terdeteksi package manager yang didukung. Pastikan salah satu package manager terpasang."@
}

/// The managers that apply to an image-based system.
pub open spec fn immutable_managers() -> Seq<PackageManager> {
    seq![PackageManager::Flatpak, PackageManager::Snap]
}

/// Describes the system from the text of `/etc/os-release` (empty when the
/// file does not exist), the installed managers and whether `rpm-ostree`
/// is installed; fails when no supported manager is installed.
pub fn detect_system(os_release: &str, available: Vec<PackageManager>, rpm_ostree_installed: bool) -> (r:
    Result<SystemInfo, String>)
    ensures
        r is Err <==> available@.len() == 0,
        r matches Err(e) ==> e@ == no_manager_message(),
        r matches Ok(info) ==> {
            let id = os_release_id(os_release@);
            let like = os_release_like(os_release@);
            &&& info.distro_id@ == id
            &&& strings(info.distro_like@) == like
            &&& info.available_managers@ == available@
            &&& info.is_immutable == (immutable_distro(id) || rpm_ostree_installed)
            &&& info.relevant_managers@ == if info.is_immutable {
                immutable_managers()
            } else {
                relevant_managers(seq![id] + like)
            }
        },
{
    let parsed = parse_os_release(os_release);
    let mut relevant = detect_relevant_managers(
        parsed.distro_id.as_str(),
        parsed.distro_like.as_slice(),
    );
    let id = parsed.distro_id.as_str();
    let is_immutable = str_eq(id, "silverblue") || str_eq(id, "kinoite") || str_eq(
        id,
        "fedora-coreos",
    ) || rpm_ostree_installed;
    if is_immutable {
        // Image-based systems are not upgraded through dnf, yum or pacman;
        // only the application layers are.
        relevant = vec![PackageManager::Flatpak, PackageManager::Snap];
        assert(relevant@ =~= immutable_managers());
    }
    if available.len() == 0 {
        return Err(
            String::from_str(
                "Tidak terdeteksi package manager yang didukung. Pastikan salah satu package manager terpasang.",
            ),
        );
    }
    Ok(
        SystemInfo {
            distro_id: parsed.distro_id,
            distro_like: parsed.distro_like,
            available_managers: available,
            relevant_managers: relevant,
            is_immutable,
        },
    )
}


/// Which managers a list of names mentions depends only on which names it
/// holds.
proof fn lemma_mentioned_contains(names: Seq<Seq<char>>, x: PackageManager)
    ensures
        mentioned(names).contains(x) <==> exists|i: int|
            0 <= i < names.len() && #[trigger] family(names[i]).contains(x),
    decreases names.len(),
{
    if names.len() > 0 {
        let p = names.drop_last();
        lemma_mentioned_contains(p, x);
        let a = mentioned(p);
        let b = family(names.last());
        let s = a + b;
        if s.contains(x) {
            let k = choose|k: int| 0 <= k < s.len() && s[k] == x;
            if k < a.len() {
                assert(a[k] == x);
                let i = choose|i: int| 0 <= i < p.len() && #[trigger] family(p[i]).contains(x);
                assert(family(names[i]).contains(x));
            } else {
                assert(b[k - a.len()] == x);
                assert(family(names[names.len() - 1]).contains(x));
            }
        }
        if exists|i: int| 0 <= i < names.len() && #[trigger] family(names[i]).contains(x) {
            let i = choose|i: int| 0 <= i < names.len() && #[trigger] family(names[i]).contains(x);
            if i < p.len() {
                assert(family(p[i]).contains(x));
                let k = choose|k: int| 0 <= k < a.len() && a[k] == x;
                assert(s[k] == x);
            } else {
                let k = choose|k: int| 0 <= k < b.len() && b[k] == x;
                assert(s[a.len() + k] == x);
            }
        }
    }
}

/// Two lists holding the same distribution names (in any order, any number
/// of times) give the same managers, and as many.
pub proof fn law_relevant_same_names(names1: Seq<Seq<char>>, names2: Seq<Seq<char>>)
    requires
        forall|n: Seq<char>| names1.contains(n) <==> names2.contains(n),
    ensures
        forall|x: PackageManager|
            relevant_managers(names1).contains(x) <==> relevant_managers(names2).contains(x),
        relevant_managers(names1).len() == relevant_managers(names2).len(),
{
    let m1 = mentioned(names1);
    let m2 = mentioned(names2);
    assert forall|x: PackageManager| m1.contains(x) <==> m2.contains(x) by {
        lemma_mentioned_contains(names1, x);
        lemma_mentioned_contains(names2, x);
        if m1.contains(x) {
            let i = choose|i: int| 0 <= i < names1.len() && #[trigger] family(names1[i]).contains(x);
            assert(names1.contains(names1[i]));
            let j = choose|j: int| 0 <= j < names2.len() && names2[j] == names1[i];
            assert(family(names2[j]).contains(x));
        }
        if m2.contains(x) {
            let i = choose|i: int| 0 <= i < names2.len() && #[trigger] family(names2[i]).contains(x);
            assert(names2.contains(names2[i]));
            let j = choose|j: int| 0 <= j < names1.len() && names1[j] == names2[i];
            assert(family(names1[j]).contains(x));
        }
    }
    assert(m1.len() == 0 <==> m2.len() == 0) by {
        if m1.len() > 0 {
            assert(m1.contains(m1[0]));
        }
        if m2.len() > 0 {
            assert(m2.contains(m2[0]));
        }
    }
    let r1 = relevant_managers(names1);
    let r2 = relevant_managers(names2);
    assert forall|x: PackageManager| r1.contains(x) <==> r2.contains(x) by {
        law_relevant_members(names1, x);
        law_relevant_members(names2, x);
    }
    law_relevant_no_duplicates(names1);
    law_relevant_no_duplicates(names2);
    assert(r1.no_duplicates());
    assert(r2.no_duplicates());
    r1.unique_seq_to_set();
    r2.unique_seq_to_set();
    assert(r1.to_set() =~= r2.to_set());
}


/// A system with a known distribution among its names is offered exactly
/// the managers of its known distributions, plus Flatpak and Snap: never
/// the list meant for unknown distributions.
pub proof fn law_known_distro_never_falls_back(names: Seq<Seq<char>>, i: int)
    requires
        0 <= i < names.len(),
        family(names[i]).len() > 0,
    ensures
        forall|x: PackageManager|
            relevant_managers(names).contains(x) <==> (x == PackageManager::Flatpak || x
                == PackageManager::Snap || exists|j: int|
                0 <= j < names.len() && #[trigger] family(names[j]).contains(x)),
{
    let f = family(names[i]);
    lemma_mentioned_contains(names, f[0]);
    assert(f.contains(f[0]));
    assert(mentioned(names).len() > 0);
    assert forall|x: PackageManager|
        relevant_managers(names).contains(x) <==> (x == PackageManager::Flatpak || x
            == PackageManager::Snap || exists|j: int|
            0 <= j < names.len() && #[trigger] family(names[j]).contains(x)) by {
        law_relevant_members(names, x);
        lemma_mentioned_contains(names, x);
    }
}

/// The distribution table: each distribution the tool knows is served by
/// these managers, so a known distribution never gets the fallback list.
pub proof fn law_family_table()
    ensures
        family("debian"@) == seq![PackageManager::Apt],
        family("ubuntu"@) == seq![PackageManager::Apt],
        family("linuxmint"@) == seq![PackageManager::Apt],
        family("pop"@) == seq![PackageManager::Apt],
        family("pop_os"@) == seq![PackageManager::Apt],
        family("popos"@) == seq![PackageManager::Apt],
        family("kali"@) == seq![PackageManager::Apt],
        family("raspbian"@) == seq![PackageManager::Apt],
        family("fedora"@) == seq![PackageManager::Dnf, PackageManager::Yum],
        family("rhel"@) == seq![PackageManager::Dnf, PackageManager::Yum],
        family("centos"@) == seq![PackageManager::Dnf, PackageManager::Yum],
        family("centos-stream"@) == seq![PackageManager::Dnf],
        family("rocky"@) == seq![PackageManager::Dnf],
        family("almalinux"@) == seq![PackageManager::Dnf],
        family("arch"@) == seq![PackageManager::Pacman, PackageManager::Yay, PackageManager::Paru],
        family("manjaro"@) == seq![PackageManager::Pacman, PackageManager::Yay, PackageManager::Paru],
        family("endeavouros"@) == seq![PackageManager::Pacman, PackageManager::Yay, PackageManager::Paru],
        family("endeavor"@) == seq![PackageManager::Pacman, PackageManager::Yay, PackageManager::Paru],
        family("endeavoros"@) == seq![PackageManager::Pacman, PackageManager::Yay, PackageManager::Paru],
        family("opensuse"@) == seq![PackageManager::Zypper],
        family("suse"@) == seq![PackageManager::Zypper],
        family("opensuse-leap"@) == seq![PackageManager::Zypper],
        family("opensuse-tumbleweed"@) == seq![PackageManager::Zypper],
        family("alpine"@) == seq![PackageManager::Apk],
        family("void"@) == seq![PackageManager::Xbps],
        family("gentoo"@) == seq![PackageManager::Emerge],
{
    reveal_strlit("debian");
    reveal_strlit("ubuntu");
    reveal_strlit("linuxmint");
    reveal_strlit("pop");
    reveal_strlit("pop_os");
    reveal_strlit("popos");
    reveal_strlit("kali");
    reveal_strlit("raspbian");
    reveal_strlit("fedora");
    reveal_strlit("rhel");
    reveal_strlit("centos");
    reveal_strlit("centos-stream");
    reveal_strlit("rocky");
    reveal_strlit("almalinux");
    reveal_strlit("arch");
    reveal_strlit("manjaro");
    reveal_strlit("endeavouros");
    reveal_strlit("endeavor");
    reveal_strlit("endeavoros");
    reveal_strlit("opensuse");
    reveal_strlit("suse");
    reveal_strlit("opensuse-leap");
    reveal_strlit("opensuse-tumbleweed");
    reveal_strlit("alpine");
    reveal_strlit("void");
    reveal_strlit("gentoo");
    assert("debian"@.len() == 6);
    assert("ubuntu"@.len() == 6);
    assert("linuxmint"@.len() == 9);
    assert("pop"@.len() == 3);
    assert("pop_os"@.len() == 6);
    assert("popos"@.len() == 5);
    assert("kali"@.len() == 4);
    assert("raspbian"@.len() == 8);
    assert("fedora"@.len() == 6);
    assert("rhel"@.len() == 4);
    assert("centos"@.len() == 6);
    assert("centos-stream"@.len() == 13);
    assert("rocky"@.len() == 5);
    assert("almalinux"@.len() == 9);
    assert("arch"@.len() == 4);
    assert("manjaro"@.len() == 7);
    assert("endeavouros"@.len() == 11);
    assert("endeavor"@.len() == 8);
    assert("endeavoros"@.len() == 10);
    assert("opensuse"@.len() == 8);
    assert("suse"@.len() == 4);
    assert("opensuse-leap"@.len() == 13);
    assert("opensuse-tumbleweed"@.len() == 19);
    assert("alpine"@.len() == 6);
    assert("void"@.len() == 4);
    assert("gentoo"@.len() == 6);
    assert("debian"@[0] != "ubuntu"@[0]);
    assert("debian"@[0] != "pop_os"@[0]);
    assert("debian"@[0] != "fedora"@[0]);
    assert("debian"@[0] != "centos"@[0]);
    assert("debian"@[0] != "alpine"@[0]);
    assert("debian"@[0] != "gentoo"@[0]);
    assert("ubuntu"@[0] != "pop_os"@[0]);
    assert("ubuntu"@[0] != "fedora"@[0]);
    assert("ubuntu"@[0] != "centos"@[0]);
    assert("ubuntu"@[0] != "alpine"@[0]);
    assert("ubuntu"@[0] != "gentoo"@[0]);
    assert("linuxmint"@[0] != "almalinux"@[0]);
    assert("pop_os"@[0] != "fedora"@[0]);
    assert("pop_os"@[0] != "centos"@[0]);
    assert("pop_os"@[0] != "alpine"@[0]);
    assert("pop_os"@[0] != "gentoo"@[0]);
    assert("popos"@[0] != "rocky"@[0]);
    assert("kali"@[0] != "rhel"@[0]);
    assert("kali"@[0] != "arch"@[0]);
    assert("kali"@[0] != "suse"@[0]);
    assert("kali"@[0] != "void"@[0]);
    assert("raspbian"@[0] != "endeavor"@[0]);
    assert("raspbian"@[0] != "opensuse"@[0]);
    assert("fedora"@[0] != "centos"@[0]);
    assert("fedora"@[0] != "alpine"@[0]);
    assert("fedora"@[0] != "gentoo"@[0]);
    assert("rhel"@[0] != "arch"@[0]);
    assert("rhel"@[0] != "suse"@[0]);
    assert("rhel"@[0] != "void"@[0]);
    assert("centos"@[0] != "alpine"@[0]);
    assert("centos"@[0] != "gentoo"@[0]);
    assert("centos-stream"@[0] != "opensuse-leap"@[0]);
    assert("arch"@[0] != "suse"@[0]);
    assert("arch"@[0] != "void"@[0]);
    assert("endeavor"@[0] != "opensuse"@[0]);
    assert("suse"@[0] != "void"@[0]);
    assert("alpine"@[0] != "gentoo"@[0]);
}


/// Every manager is probed, once; unknown distributions get apt, dnf,
/// pacman, Flatpak and Snap; silverblue, kinoite and fedora-coreos are
/// image based, and Flatpak and Snap are all that is offered there.
pub proof fn law_probe_fallback_and_immutable_tables()
    ensures
        forall|m: PackageManager| #[trigger] probe_order_spec().contains(m),
        no_duplicates(probe_order_spec()),
        fallback_managers() == seq![
            PackageManager::Apt,
            PackageManager::Dnf,
            PackageManager::Pacman,
            PackageManager::Flatpak,
            PackageManager::Snap,
        ],
        immutable_distro("silverblue"@),
        immutable_distro("kinoite"@),
        immutable_distro("fedora-coreos"@),
        immutable_managers() == seq![PackageManager::Flatpak, PackageManager::Snap],
{
    let p = probe_order_spec();
    assert forall|m: PackageManager| #[trigger] p.contains(m) by {
        let i: int = match m {
            PackageManager::Pacman => 0,
            PackageManager::Yay => 1,
            PackageManager::Paru => 2,
            PackageManager::Apt => 3,
            PackageManager::Dnf => 4,
            PackageManager::Yum => 5,
            PackageManager::Xbps => 6,
            PackageManager::Emerge => 7,
            PackageManager::Zypper => 8,
            PackageManager::Apk => 9,
            PackageManager::Flatpak => 10,
            PackageManager::Snap => 11,
        };
        assert(p[i] == m);
    }
}

} // verus!

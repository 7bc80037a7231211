//! Microphone choice: which input devices exist and in which order they are
//! tried when a recording starts.  Opening devices and handling samples is
//! done by the application around the library.
use vstd::prelude::*;
use crate::text::{append_str, str_equal};

verus! {

/// An input device as the settings screen lists it.
#[derive(Clone, Debug)]
pub struct AudioDevice {
    pub name: String,
    pub is_default: bool,
}

/// Describes the input devices, given their names in the order the audio
/// host lists them and the name of the default input device, if any.
pub fn list_devices(names: &[String], default_name: Option<&str>) -> (r: Vec<AudioDevice>)
    ensures
        r@.len() == names@.len(),
        forall|i: int|
            0 <= i < names@.len() ==> {
                &&& (#[trigger] r@[i]).name == names@[i]
                &&& r@[i].is_default == (default_name matches Some(d) && d@ == names@[i]@)
            },
{
    let mut out: Vec<AudioDevice> = Vec::new();
    let mut i: usize = 0;
    while i < names.len()
        invariant
            i <= names@.len(),
            out@.len() == i,
            forall|j: int|
                0 <= j < i ==> {
                    &&& (#[trigger] out@[j]).name == names@[j]
                    &&& out@[j].is_default == (default_name matches Some(d) && d@ == names@[j]@)
                },
        decreases names@.len() - i,
    {
        let is_default = match default_name {
            Some(d) => str_equal(d, names[i].as_str()),
            None => false,
        };
        out.push(AudioDevice { name: names[i].clone(), is_default });
        i += 1;
    }
    out
}

/// A device to try when recording starts.
#[derive(Clone, Copy, Debug, PartialEq, Eq, Structural)]
pub enum DeviceChoice {
    /// The device at this position in the host's list.
    Listed(usize),
    /// The host's default input device.
    Default,
}

/// The name of a device choice.
pub open spec fn choice_name(c: DeviceChoice, names: Seq<Seq<char>>, default_name: Seq<char>) -> Seq<char> {
    match c {
        DeviceChoice::Listed(i) => names[i as int],
        DeviceChoice::Default => default_name,
    }
}

/// The position of the first listed device called `name`, if any.
pub open spec fn first_named(names: Seq<Seq<char>>, name: Seq<char>) -> Option<int> {
    if exists|i: int| 0 <= i < names.len() && names[i] == name {
        Some(
            choose|i: int|
                0 <= i < names.len() && names[i] == name && forall|j: int|
                    0 <= j < i ==> names[j] != name,
        )
    } else {
        None
    }
}

/// The listed device called `name`, when there is one.
pub open spec fn named_choice(name: Option<Seq<char>>, names: Seq<Seq<char>>) -> Seq<DeviceChoice> {
    match name {
        Some(n) => match first_named(names, n) {
            Some(i) => seq![DeviceChoice::Listed(i as usize)],
            None => seq![],
        },
        None => seq![],
    }
}

/// The devices in the order they are considered, before duplicates are
/// dropped: the preferred device and the fallback device when the host lists
/// them, the default device when there is one, then every listed device.
pub open spec fn raw_candidates(
    preferred: Option<Seq<char>>,
    fallback: Option<Seq<char>>,
    names: Seq<Seq<char>>,
    has_default: bool,
) -> Seq<DeviceChoice> {
    let p = named_choice(preferred, names);
    let f = named_choice(fallback, names);
    let d: Seq<DeviceChoice> = if has_default {
        seq![DeviceChoice::Default]
    } else {
        seq![]
    };
    p + f + d + Seq::new(names.len(), |i: int| DeviceChoice::Listed(i as usize))
}

/// `s` without the choices whose name an earlier choice already has.
pub open spec fn unique_by_name(
    s: Seq<DeviceChoice>,
    names: Seq<Seq<char>>,
    default_name: Seq<char>,
) -> Seq<DeviceChoice>
    decreases s.len(),
{
    if s.len() == 0 {
        seq![]
    } else {
        let d = unique_by_name(s.drop_last(), names, default_name);
        if exists|j: int|
            0 <= j < s.len() - 1 && choice_name(s[j], names, default_name) == choice_name(
                s.last(),
                names,
                default_name,
            ) {
            d
        } else {
            d.push(s.last())
        }
    }
}


/// The names of the listed devices.
pub open spec fn name_texts(names: Seq<String>) -> Seq<Seq<char>> {
    names.map_values(|s: String| s@)
}

/// The text of an optional name, or the empty text.
pub open spec fn name_or_empty(n: Option<&str>) -> Seq<char> {
    match n {
        Some(s) => s@,
        None => seq![],
    }
}

/// The text of an optional name.
pub open spec fn opt_text(n: Option<&str>) -> Option<Seq<char>> {
    match n {
        Some(s) => Some(s@),
        None => None,
    }
}

/// The name of a device choice.
fn choice_label<'a>(c: DeviceChoice, names: &'a [String], default_name: &'a str) -> (r: &'a str)
    requires
        c matches DeviceChoice::Listed(i) ==> i < names@.len(),
    ensures
        r@ == choice_name(c, name_texts(names@), default_name@),
{
    match c {
        DeviceChoice::Listed(i) => names[i].as_str(),
        DeviceChoice::Default => default_name,
    }
}

/// The position of the first listed device called `name`.
fn find_named(names: &[String], name: &str) -> (r: Option<usize>)
    ensures
        r matches Some(i) ==> first_named(name_texts(names@), name@) == Some(i as int) && i < names@.len(),
        r is None ==> first_named(name_texts(names@), name@) is None,
{
    let ghost ns = name_texts(names@);
    let mut i: usize = 0;
    while i < names.len()
        invariant
            ns == name_texts(names@),
            i <= names@.len(),
            forall|j: int| 0 <= j < i ==> ns[j] != name@,
        decreases names@.len() - i,
    {
        if str_equal(names[i].as_str(), name) {
            proof {
                let k = choose|k: int|
                    0 <= k < ns.len() && ns[k] == name@ && forall|j: int|
                        0 <= j < k ==> ns[j] != name@;
                assert(0 <= i < ns.len() && ns[i as int] == name@);
                if k < i {
                    assert(ns[k] != name@);
                }
                if i < k {
                    assert(ns[i as int] != name@);
                }
            }
            return Some(i);
        }
        i += 1;
    }
    None
}

/// Every choice that `unique_by_name` keeps comes from its input.
proof fn lemma_unique_subset(s: Seq<DeviceChoice>, names: Seq<Seq<char>>, default_name: Seq<char>)
    ensures
        forall|k: int|
            0 <= k < unique_by_name(s, names, default_name).len() ==> s.contains(
                #[trigger] unique_by_name(s, names, default_name)[k],
            ),
    decreases s.len(),
{
    if s.len() > 0 {
        lemma_unique_subset(s.drop_last(), names, default_name);
        let d = unique_by_name(s.drop_last(), names, default_name);
        assert forall|k: int| 0 <= k < d.len() implies s.contains(#[trigger] d[k]) by {
            let w = choose|w: int| 0 <= w < s.drop_last().len() && s.drop_last()[w] == d[k];
            assert(s[w] == d[k]);
        }
        assert(s[s.len() - 1] == s.last());
    }
}

/// The choices that `unique_by_name` keeps have pairwise different names,
/// and every input choice shares its name with a kept one.
pub proof fn lemma_unique_by_name(s: Seq<DeviceChoice>, names: Seq<Seq<char>>, default_name: Seq<char>)
    ensures
        ({
            let u = unique_by_name(s, names, default_name);
            &&& forall|a: int, b: int|
                0 <= a < b < u.len() ==> choice_name(#[trigger] u[a], names, default_name)
                    != choice_name(#[trigger] u[b], names, default_name)
            &&& forall|k: int|
                0 <= k < s.len() ==> exists|m: int|
                    0 <= m < u.len() && choice_name(#[trigger] u[m], names, default_name)
                        == choice_name(#[trigger] s[k], names, default_name)
        }),
    decreases s.len(),
{
    if s.len() > 0 {
        let t = s.drop_last();
        lemma_unique_by_name(t, names, default_name);
        lemma_unique_subset(t, names, default_name);
        let d = unique_by_name(t, names, default_name);
        let u = unique_by_name(s, names, default_name);
        let last_name = choice_name(s.last(), names, default_name);
        if exists|j: int| 0 <= j < s.len() - 1 && choice_name(s[j], names, default_name) == last_name {
            assert(u == d);
            assert forall|k: int| 0 <= k < s.len() implies exists|m: int|
                0 <= m < u.len() && choice_name(#[trigger] u[m], names, default_name)
                    == choice_name(#[trigger] s[k], names, default_name) by {
                if k < s.len() - 1 {
                    assert(t[k] == s[k]);
                } else {
                    let j = choose|j: int|
                        0 <= j < s.len() - 1 && choice_name(s[j], names, default_name) == last_name;
                    assert(t[j] == s[j]);
                }
            }
        } else {
            assert(u == d.push(s.last()));
            assert forall|a: int, b: int|
                0 <= a < b < u.len() implies choice_name(#[trigger] u[a], names, default_name)
                    != choice_name(#[trigger] u[b], names, default_name) by {
                if b == u.len() - 1 {
                    assert(t.contains(d[a]));
                    let w = choose|w: int| 0 <= w < t.len() && t[w] == d[a];
                    assert(s[w] == t[w]);
                } else {
                    assert(u[a] == d[a] && u[b] == d[b]);
                }
            }
            assert forall|k: int| 0 <= k < s.len() implies exists|m: int|
                0 <= m < u.len() && choice_name(#[trigger] u[m], names, default_name)
                    == choice_name(#[trigger] s[k], names, default_name) by {
                if k < s.len() - 1 {
                    assert(t[k] == s[k]);
                    let m = choose|m: int|
                        0 <= m < d.len() && choice_name(#[trigger] d[m], names, default_name)
                            == choice_name(#[trigger] t[k], names, default_name);
                    assert(u[m] == d[m]);
                } else {
                    assert(u[u.len() - 1] == s.last());
                }
            }
        }
    }
}

/// `unique_by_name` of a prefix of `s` is a prefix of `unique_by_name(s)`.
proof fn lemma_unique_prefix(s: Seq<DeviceChoice>, k: int, names: Seq<Seq<char>>, default_name: Seq<char>)
    requires
        0 <= k <= s.len(),
    ensures
        unique_by_name(s.take(k), names, default_name).len() <= unique_by_name(s, names, default_name).len(),
        forall|i: int|
            0 <= i < unique_by_name(s.take(k), names, default_name).len() ==> unique_by_name(s, names, default_name)[i]
                == #[trigger] unique_by_name(s.take(k), names, default_name)[i],
    decreases s.len(),
{
    if k == s.len() {
        assert(s.take(k) =~= s);
    } else {
        lemma_unique_prefix(s.drop_last(), k, names, default_name);
        assert(s.drop_last().take(k) =~= s.take(k));
    }
}

/// How `unique_by_name` grows by one choice: the choice is kept exactly
/// when no earlier choice has its name.
proof fn lemma_unique_step(s: Seq<DeviceChoice>, k: int, names: Seq<Seq<char>>, default_name: Seq<char>)
    requires
        0 <= k < s.len(),
    ensures
        unique_by_name(s.take(k + 1), names, default_name) == if exists|j: int|
            0 <= j < k && choice_name(s[j], names, default_name) == choice_name(s[k], names, default_name) {
            unique_by_name(s.take(k), names, default_name)
        } else {
            unique_by_name(s.take(k), names, default_name).push(s[k])
        },
{
    let t = s.take(k + 1);
    assert(t.drop_last() =~= s.take(k));
    assert(t.last() == s[k]);
    assert(forall|j: int| 0 <= j < k ==> t[j] == s[j]);
}

/// `unique_by_name` keeps the order of its input: two kept choices come
/// from positions of `s` in the same order.
proof fn lemma_unique_in_order(s: Seq<DeviceChoice>, names: Seq<Seq<char>>, default_name: Seq<char>)
    ensures
        forall|a: int, b: int|
            0 <= a < b < unique_by_name(s, names, default_name).len() ==> exists|p: int, q: int|
                0 <= p < q < s.len() && s[p] == #[trigger] unique_by_name(s, names, default_name)[a] && s[q]
                    == #[trigger] unique_by_name(s, names, default_name)[b],
    decreases s.len(),
{
    if s.len() > 0 {
        let t = s.drop_last();
        lemma_unique_in_order(t, names, default_name);
        lemma_unique_subset(t, names, default_name);
        let d = unique_by_name(t, names, default_name);
        let u = unique_by_name(s, names, default_name);
        assert forall|a: int, b: int| 0 <= a < b < u.len() implies exists|p: int, q: int|
            0 <= p < q < s.len() && s[p] == #[trigger] u[a] && s[q] == #[trigger] u[b] by {
            assert(u[a] == d[a]);
            if b < d.len() {
                assert(u[b] == d[b]);
                let (p, q) = choose|p: int, q: int| 0 <= p < q < t.len() && t[p] == d[a] && t[q] == d[b];
                assert(s[p] == t[p] && s[q] == t[q]);
            } else {
                assert(u[b] == s.last());
                assert(t.contains(d[a]));
                let p = choose|p: int| 0 <= p < t.len() && t[p] == d[a];
                assert(s[p] == t[p]);
                assert(s[s.len() - 1] == s.last());
            }
        }
    }
}

/// Some index of `names` holding `name` has no earlier one holding it.
proof fn lemma_first_index_exists(names: Seq<Seq<char>>, name: Seq<char>, w: int)
    requires
        0 <= w < names.len(),
        names[w] == name,
    ensures
        exists|i: int| 0 <= i < names.len() && names[i] == name && forall|j: int| 0 <= j < i ==> names[j] != name,
    decreases w,
{
    if exists|j: int| 0 <= j < w && names[j] == name {
        let j = choose|j: int| 0 <= j < w && names[j] == name;
        lemma_first_index_exists(names, name, j);
    } else {
        assert(forall|j: int| 0 <= j < w ==> names[j] != name);
    }
}

/// The position of the first listed device with the given name, when a name
/// is given and listed.
pub open spec fn listed_position(name: Option<Seq<char>>, names: Seq<Seq<char>>) -> Option<int> {
    match name {
        Some(n) => first_named(names, n),
        None => None,
    }
}

/// A listed position is the first position holding the name.
proof fn lemma_listed_position(name: Option<Seq<char>>, names: Seq<Seq<char>>)
    ensures
        listed_position(name, names) matches Some(i) ==> {
            &&& 0 <= i < names.len()
            &&& name == Some(names[i])
            &&& forall|j: int| 0 <= j < i ==> names[j] != names[i]
        },
        listed_position(name, names) is None ==> forall|i: int|
            0 <= i < names.len() ==> name != Some(#[trigger] names[i]),
{
    if let Some(n) = name {
        if exists|i: int| 0 <= i < names.len() && names[i] == n {
            let w = choose|i: int| 0 <= i < names.len() && names[i] == n;
            lemma_first_index_exists(names, n, w);
        }
    }
}

/// What an order of devices to try holds first: the preferred device, when
/// the host lists it, first; the fallback device, when listed under another
/// position, right after it (or first, when the preferred device is not
/// listed); the default device, when there is one and neither named device
/// has its name, with only the named devices before it; no default choice
/// when there is no default device; and the other listed devices in the
/// host's order.
pub open spec fn leads_with_named(
    r: Seq<DeviceChoice>,
    preferred: Option<Seq<char>>,
    fallback: Option<Seq<char>>,
    names: Seq<Seq<char>>,
    has_default: bool,
    default_name: Seq<char>,
) -> bool {
    let pi = listed_position(preferred, names);
    let fi = listed_position(fallback, names);
    &&& pi matches Some(i) ==> r.len() > 0 && r[0] == DeviceChoice::Listed(i as usize)
    &&& pi is None ==> (fi matches Some(j) ==> r.len() > 0 && r[0] == DeviceChoice::Listed(j as usize))
    &&& pi matches Some(i) ==> (fi matches Some(j) ==> (i != j ==> r.len() > 1 && r[1]
        == DeviceChoice::Listed(j as usize)))
    &&& has_default && (pi matches Some(i) ==> names[i] != default_name) && (fi matches Some(j)
        ==> names[j] != default_name) ==> exists|m: int|
        0 <= m < r.len() && r[m] == DeviceChoice::Default && forall|k: int|
            0 <= k < m ==> (#[trigger] r[k] matches DeviceChoice::Listed(x) && (pi == Some(x as int)
                || fi == Some(x as int)))
    &&& !has_default ==> !r.contains(DeviceChoice::Default)
    &&& forall|a: int, b: int|
        0 <= a < b < r.len() ==> (#[trigger] r[a] matches DeviceChoice::Listed(x) ==> (#[trigger] r[b] matches DeviceChoice::Listed(y) ==> (
        pi != Some(x as int) && fi != Some(x as int) && pi != Some(y as int) && fi != Some(y as int)
            ==> x < y)))
}

/// Every listed device is among the devices tried, under its name.
proof fn lemma_every_device_considered(
    preferred: Option<Seq<char>>,
    fallback: Option<Seq<char>>,
    names: Seq<Seq<char>>,
    has_default: bool,
    default_name: Seq<char>,
)
    requires
        names.len() <= usize::MAX,
    ensures
        forall|i: int|
            0 <= i < names.len() ==> exists|m: int|
                0 <= m < unique_by_name(raw_candidates(preferred, fallback, names, has_default), names, default_name).len()
                    && choice_name(
                    #[trigger] unique_by_name(raw_candidates(preferred, fallback, names, has_default), names, default_name)[m],
                    names,
                    default_name,
                ) == #[trigger] names[i],
{
    let raw = raw_candidates(preferred, fallback, names, has_default);
    let u = unique_by_name(raw, names, default_name);
    let dc: Seq<DeviceChoice> = if has_default {
        seq![DeviceChoice::Default]
    } else {
        seq![]
    };
    let head = named_choice(preferred, names) + named_choice(fallback, names) + dc;
    let listed = Seq::new(names.len(), |k: int| DeviceChoice::Listed(k as usize));
    assert(raw == head + listed);
    lemma_unique_by_name(raw, names, default_name);
    assert forall|i: int| 0 <= i < names.len() implies exists|m: int|
        0 <= m < u.len() && choice_name(#[trigger] u[m], names, default_name) == #[trigger] names[i] by {
        let k = head.len() + i;
        assert(raw[k] == listed[i]);
        assert((i as usize) as int == i);
        assert(choice_name(raw[k], names, default_name) == names[i]);
        let m = choose|m: int|
            0 <= m < u.len() && choice_name(#[trigger] u[m], names, default_name) == #[trigger] choice_name(
                raw[k],
                names,
                default_name,
            );
    }
}

/// The order devices are tried in puts the named devices first: the
/// preferred device, when the host lists it, is tried first; the fallback
/// device, when listed, comes right after it (or first, when the preferred
/// device is not listed); then the default device, when there is one and
/// neither named device has its name, with only the named devices before
/// it.  Without a default device, no default choice is made.
pub proof fn lemma_candidates_lead(
    preferred: Option<Seq<char>>,
    fallback: Option<Seq<char>>,
    names: Seq<Seq<char>>,
    has_default: bool,
    default_name: Seq<char>,
)
    requires
        names.len() <= usize::MAX,
    ensures
        leads_with_named(
            unique_by_name(raw_candidates(preferred, fallback, names, has_default), names, default_name),
            preferred,
            fallback,
            names,
            has_default,
            default_name,
        ),
{
    let raw = raw_candidates(preferred, fallback, names, has_default);
    let pc = named_choice(preferred, names);
    let fc = named_choice(fallback, names);
    let r = unique_by_name(raw, names, default_name);
    let pi = listed_position(preferred, names);
    let fi = listed_position(fallback, names);
    lemma_listed_position(preferred, names);
    lemma_listed_position(fallback, names);
    let h: int = (pc.len() + fc.len()) as int;
    assert(forall|k: int| 0 <= k < pc.len() ==> raw[k] == pc[k]);
    assert(forall|k: int| 0 <= k < fc.len() ==> raw[pc.len() + k] == fc[k]);
    assert(unique_by_name(raw.take(0), names, default_name) == Seq::<DeviceChoice>::empty()) by {
        assert(raw.take(0) =~= Seq::<DeviceChoice>::empty());
    }
    if raw.len() > 0 {
        lemma_unique_step(raw, 0, names, default_name);
        lemma_unique_prefix(raw, 1, names, default_name);
        assert(unique_by_name(raw.take(1), names, default_name)[0] == raw[0]);
    }
    if let (Some(i), Some(j)) = (pi, fi) {
        if i != j {
            assert(preferred != fallback);
            assert(names[i] != names[j]);
            assert((i as usize) as int == i && (j as usize) as int == j);
            assert(choice_name(raw[1], names, default_name) != choice_name(raw[0], names, default_name));
            lemma_unique_step(raw, 1, names, default_name);
            lemma_unique_prefix(raw, 2, names, default_name);
            assert(unique_by_name(raw.take(2), names, default_name)[1] == raw[1]);
        }
    }
    if has_default {
        assert(raw[h] == DeviceChoice::Default);
        if (pi matches Some(i) ==> names[i] != default_name) && (fi matches Some(j) ==> names[j] != default_name) {
            assert forall|j: int| 0 <= j < h implies choice_name(raw[j], names, default_name) != default_name by {
                if j < pc.len() {
                    assert(raw[j] == pc[j]);
                } else {
                    assert(raw[j] == fc[j - pc.len()]);
                }
            }
            lemma_unique_step(raw, h, names, default_name);
            lemma_unique_prefix(raw, h + 1, names, default_name);
            let before = unique_by_name(raw.take(h), names, default_name);
            let m = before.len() as int;
            assert(unique_by_name(raw.take(h + 1), names, default_name) == before.push(DeviceChoice::Default));
            let grown = unique_by_name(raw.take(h + 1), names, default_name);
            assert(grown[m] == DeviceChoice::Default);
            assert(r[m] == DeviceChoice::Default);
            lemma_unique_subset(raw.take(h), names, default_name);
            assert forall|k: int| 0 <= k < m implies (#[trigger] r[k] matches DeviceChoice::Listed(x) && (pi
                == Some(x as int) || fi == Some(x as int))) by {
                assert(grown[k] == before[k]);
                assert(r[k] == before[k]);
                assert(raw.take(h).contains(before[k]));
                let w = choose|w: int| 0 <= w < h && raw.take(h)[w] == before[k];
                if w < pc.len() {
                    assert(raw[w] == pc[w]);
                } else {
                    assert(raw[w] == fc[w - pc.len()]);
                }
            }
        }
    } else {
        lemma_unique_subset(raw, names, default_name);
        if r.contains(DeviceChoice::Default) {
            let k = choose|k: int| 0 <= k < r.len() && r[k] == DeviceChoice::Default;
            assert(raw.contains(r[k]));
            let w = choose|w: int| 0 <= w < raw.len() && raw[w] == r[k];
            if w < pc.len() {
                assert(raw[w] == pc[w]);
            } else if w < h {
                assert(raw[w] == fc[w - pc.len()]);
            } else {
                assert(raw[w] == DeviceChoice::Listed((w - h) as usize));
            }
        }
    }
    lemma_unique_in_order(raw, names, default_name);
    assert forall|a: int, b: int|
        0 <= a < b < r.len() implies (#[trigger] r[a] matches DeviceChoice::Listed(x) ==> (#[trigger] r[b] matches DeviceChoice::Listed(y) ==> (
        pi != Some(x as int) && fi != Some(x as int) && pi != Some(y as int) && fi != Some(y as int)
            ==> x < y))) by {
        if let (DeviceChoice::Listed(x), DeviceChoice::Listed(y)) = (r[a], r[b]) {
            if pi != Some(x as int) && fi != Some(x as int) && pi != Some(y as int) && fi != Some(y as int) {
                let (p, q) = choose|p: int, q: int| 0 <= p < q < raw.len() && raw[p] == r[a] && raw[q] == r[b];
                lemma_raw_listed_position(preferred, fallback, names, has_default, p);
                lemma_raw_listed_position(preferred, fallback, names, has_default, q);
            }
        }
    }
}

/// Past the named devices and the default device, position `p` of the raw
/// order holds the listed device `p - h`; before it, only the named devices
/// and the default device stand.
proof fn lemma_raw_listed_position(
    preferred: Option<Seq<char>>,
    fallback: Option<Seq<char>>,
    names: Seq<Seq<char>>,
    has_default: bool,
    p: int,
)
    requires
        names.len() <= usize::MAX,
        0 <= p < raw_candidates(preferred, fallback, names, has_default).len(),
    ensures
        raw_candidates(preferred, fallback, names, has_default)[p] matches DeviceChoice::Listed(x) ==> (
        listed_position(preferred, names) == Some(x as int) || listed_position(fallback, names) == Some(
            x as int,
        ) || x as int == p - (raw_candidates(preferred, fallback, names, has_default).len() - names.len())),
{
    let raw = raw_candidates(preferred, fallback, names, has_default);
    let pc = named_choice(preferred, names);
    let fc = named_choice(fallback, names);
    let dc: Seq<DeviceChoice> = if has_default {
        seq![DeviceChoice::Default]
    } else {
        seq![]
    };
    let head = pc + fc + dc;
    let listed = Seq::new(names.len(), |k: int| DeviceChoice::Listed(k as usize));
    assert(raw == head + listed);
    lemma_listed_position(preferred, names);
    lemma_listed_position(fallback, names);
    if p < pc.len() {
        assert(raw[p] == pc[p]);
    } else if p < pc.len() + fc.len() {
        assert(raw[p] == fc[p - pc.len()]);
    } else if p < head.len() {
        assert(raw[p] == dc[p - pc.len() - fc.len()]);
    } else {
        assert(raw[p] == listed[p - head.len()]);
    }
}

/// Every listed choice in `s` points into the host's list.
pub open spec fn choices_in_range(s: Seq<DeviceChoice>, n: int) -> bool {
    forall|k: int| 0 <= k < s.len() ==> (#[trigger] s[k] matches DeviceChoice::Listed(i) ==> i < n)
}

/// The listed device called `name`, when there is one.
fn named_choice_of(name: Option<&str>, names: &[String]) -> (r: Vec<DeviceChoice>)
    ensures
        r@ == named_choice(opt_text(name), name_texts(names@)),
        choices_in_range(r@, names@.len() as int),
{
    let mut r: Vec<DeviceChoice> = Vec::new();
    if let Some(n) = name {
        if let Some(i) = find_named(names, n) {
            r.push(DeviceChoice::Listed(i));
        }
    }
    r
}

/// The choices in consideration order, before duplicates are dropped.
fn raw_candidate_list(
    preferred: Option<&str>,
    fallback: Option<&str>,
    names: &[String],
    has_default: bool,
) -> (r: Vec<DeviceChoice>)
    ensures
        r@ == raw_candidates(opt_text(preferred), opt_text(fallback), name_texts(names@), has_default),
        choices_in_range(r@, names@.len() as int),
{
    let mut p = named_choice_of(preferred, names);
    let mut f = named_choice_of(fallback, names);
    let mut raw: Vec<DeviceChoice> = Vec::new();
    raw.append(&mut p);
    raw.append(&mut f);
    if has_default {
        raw.push(DeviceChoice::Default);
    }
    let ghost head = raw@;
    assert(choices_in_range(head, names@.len() as int));
    let mut i: usize = 0;
    while i < names.len()
        invariant
            i <= names@.len(),
            choices_in_range(head, names@.len() as int),
            raw@ == head + Seq::new(i as nat, |k: int| DeviceChoice::Listed(k as usize)),
        decreases names@.len() - i,
    {
        raw.push(DeviceChoice::Listed(i));
        assert(raw@ =~= head + Seq::new((i + 1) as nat, |k: int| DeviceChoice::Listed(k as usize)));
        i += 1;
    }
    assert(raw@ =~= raw_candidates(
        opt_text(preferred),
        opt_text(fallback),
        name_texts(names@),
        has_default,
    ));
    assert forall|k: int| 0 <= k < raw@.len() implies (#[trigger] raw@[k] matches DeviceChoice::Listed(
        j,
    ) ==> j < names@.len()) by {
        if k >= head.len() {
            assert(raw@[k] == DeviceChoice::Listed((k - head.len()) as usize));
        }
    }
    raw
}

/// Whether a choice before position `k` has the name `label`.
fn named_before(raw: &[DeviceChoice], k: usize, names: &[String], dname: &str, label: &str) -> (r: bool)
    requires
        k <= raw@.len(),
        choices_in_range(raw@, names@.len() as int),
    ensures
        r == exists|q: int| 0 <= q < k && choice_name(raw@[q], name_texts(names@), dname@) == label@,
{
    let mut j: usize = 0;
    while j < k
        invariant
            j <= k <= raw@.len(),
            choices_in_range(raw@, names@.len() as int),
            forall|q: int| 0 <= q < j ==> choice_name(#[trigger] raw@[q], name_texts(names@), dname@) != label@,
        decreases k - j,
    {
        let c = raw[j];
        assert(raw@[j as int] == c);
        let other = choice_label(c, names, dname);
        if str_equal(other, label) {
            return true;
        }
        j += 1;
    }
    false
}

/// `raw` without the choices whose name an earlier choice has.
fn unique_choices(raw: &[DeviceChoice], names: &[String], dname: &str) -> (r: Vec<DeviceChoice>)
    requires
        choices_in_range(raw@, names@.len() as int),
    ensures
        r@ == unique_by_name(raw@, name_texts(names@), dname@),
        choices_in_range(r@, names@.len() as int),
{
    let ghost ns = name_texts(names@);
    let mut out: Vec<DeviceChoice> = Vec::new();
    let mut k: usize = 0;
    while k < raw.len()
        invariant
            k <= raw@.len(),
            choices_in_range(raw@, names@.len() as int),
            ns == name_texts(names@),
            out@ == unique_by_name(raw@.take(k as int), ns, dname@),
            choices_in_range(out@, names@.len() as int),
        decreases raw@.len() - k,
    {
        let c = raw[k];
        assert(raw@[k as int] == c);
        let label = choice_label(c, names, dname);
        let seen = named_before(raw, k, names, dname, label);
        let ghost pre = raw@.take(k as int);
        let ghost post = raw@.take(k + 1);
        assert(post.drop_last() =~= pre);
        assert(post.last() == c);
        proof {
            let last_name = choice_name(post.last(), ns, dname@);
            if seen {
                let q = choose|q: int| 0 <= q < k && choice_name(raw@[q], name_texts(names@), dname@) == label@;
                assert(post[q] == raw@[q]);
                assert(0 <= q < post.len() - 1 && choice_name(post[q], ns, dname@) == last_name);
            } else {
                assert forall|j: int| 0 <= j < post.len() - 1 implies choice_name(post[j], ns, dname@) != last_name by {
                    assert(post[j] == raw@[j]);
                }
            }
        }
        if !seen {
            out.push(c);
        }
        k += 1;
    }
    assert(raw@.take(raw@.len() as int) =~= raw@);
    out
}

/// The order in which input devices are tried when a recording starts: the
/// preferred device, the fallback device, the default device, then every
/// device the host lists, each name only once (its first appearance wins).
pub fn candidate_order(
    preferred: Option<&str>,
    fallback: Option<&str>,
    names: &[String],
    default_name: Option<&str>,
) -> (r: Vec<DeviceChoice>)
    ensures
        r@ == unique_by_name(
            raw_candidates(
                opt_text(preferred),
                opt_text(fallback),
                name_texts(names@),
                default_name is Some,
            ),
            name_texts(names@),
            name_or_empty(default_name),
        ),
        choices_in_range(r@, names@.len() as int),
        forall|a: int, b: int|
            0 <= a < b < r@.len() ==> choice_name(#[trigger] r@[a], name_texts(names@), name_or_empty(default_name))
                != choice_name(#[trigger] r@[b], name_texts(names@), name_or_empty(default_name)),
        forall|i: int|
            0 <= i < names@.len() ==> exists|m: int|
                0 <= m < r@.len() && choice_name(#[trigger] r@[m], name_texts(names@), name_or_empty(default_name))
                    == #[trigger] names@[i]@,
        leads_with_named(
            r@,
            opt_text(preferred),
            opt_text(fallback),
            name_texts(names@),
            default_name is Some,
            name_or_empty(default_name),
        ),
{
    let raw = raw_candidate_list(preferred, fallback, names, default_name.is_some());
    let dname: &str = match default_name {
        Some(d) => d,
        None => "",
    };
    proof {
        reveal_strlit("");
        assert(dname@ =~= name_or_empty(default_name));
    }
    let r = unique_choices(raw.as_slice(), names, dname);
    let nlen: usize = names.len();
    proof {
        let ns = name_texts(names@);
        assert(ns.len() == nlen);
        lemma_unique_by_name(raw@, ns, dname@);
        lemma_every_device_considered(opt_text(preferred), opt_text(fallback), ns, default_name is Some, dname@);
        lemma_candidates_lead(opt_text(preferred), opt_text(fallback), ns, default_name is Some, dname@);
        assert forall|i: int| 0 <= i < names@.len() implies exists|m: int|
            0 <= m < r@.len() && choice_name(#[trigger] r@[m], ns, name_or_empty(default_name))
                == #[trigger] names@[i]@ by {
            assert(ns[i] == names@[i]@);
        }
    }
    r
}

/// The message given when no input device exists.
pub open spec fn no_microphone_text() -> Seq<char> {
    "No microphone detected"@
}

/// The error of a recording start when there is no device to try.
pub fn no_microphone_message() -> (r: String)
    ensures
        r@ == no_microphone_text(),
{
    "No microphone detected".to_owned()
}

/// One failed attempt, as "name: error".
pub open spec fn attempt_text(a: (Seq<char>, Seq<char>)) -> Seq<char> {
    a.0 + ": "@ + a.1
}

/// The attempts joined with "; ".
pub open spec fn attempts_text(attempts: Seq<(Seq<char>, Seq<char>)>) -> Seq<char>
    decreases attempts.len(),
{
    if attempts.len() == 0 {
        seq![]
    } else if attempts.len() == 1 {
        attempt_text(attempts[0])
    } else {
        attempts_text(attempts.drop_last()) + "; "@ + attempt_text(attempts.last())
    }
}

/// The message given when devices exist but none could be opened; each
/// attempt is the device's name and the reason it failed.
pub fn open_failure_message(attempts: &[(String, String)]) -> (r: String)
    ensures
        r@ == "No available microphone could be opened ("@ + attempts_text(
            attempts@.map_values(|a: (String, String)| (a.0@, a.1@)),
        ) + ")"@,
{
    let ghost av = attempts@.map_values(|a: (String, String)| (a.0@, a.1@));
    let mut body = String::new();
    let mut i: usize = 0;
    while i < attempts.len()
        invariant
            i <= attempts@.len(),
            av == attempts@.map_values(|a: (String, String)| (a.0@, a.1@)),
            body@ == attempts_text(av.take(i as int)),
        decreases attempts@.len() - i,
    {
        let ghost before = body@;
        assert(av.take(i + 1).drop_last() =~= av.take(i as int));
        assert(av.take(i + 1).last() == av[i as int]);
        if i > 0 {
            append_str(&mut body, "; ");
        }
        append_str(&mut body, attempts[i].0.as_str());
        append_str(&mut body, ": ");
        append_str(&mut body, attempts[i].1.as_str());
        if i == 0 {
            assert(body@ =~= attempt_text(av[0]));
        } else {
            assert(body@ =~= before + "; "@ + attempt_text(av[i as int]));
        }
        i += 1;
    }
    assert(av.take(attempts@.len() as int) =~= av);
    let mut r = "No available microphone could be opened (".to_owned();
    append_str(&mut r, body.as_str());
    append_str(&mut r, ")");
    r
}

} // verus!

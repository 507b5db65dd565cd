//! Choice of the audio input device: the first whose name contains
//! "blackhole" in any letter case (a loopback device that carries system
//! audio), or else the platform default.

use vstd::prelude::*;
use vstd::string::StrSliceExecFns;

verus! {

/// What `str::to_lowercase` makes of a string.
pub uninterp spec fn lower_of(s: Seq<char>) -> Seq<char>;

/// Relies on `str::to_lowercase`: the lowercase mapping of each character, a
/// function of the characters alone.
#[verifier::external_body]
fn lowercase(s: &str) -> (r: String)
    ensures
        r@ == lower_of(s@),
{
    s.to_lowercase()
}

/// Whether `needle` occurs in `hay` as a run of consecutive characters.
pub open spec fn contains_seq(hay: Seq<char>, needle: Seq<char>) -> bool {
    exists|i: int| 0 <= i && i + needle.len() <= hay.len() && #[trigger] hay.subrange(i, i + needle.len()) == needle
}

/// The marker looked for in lowercased device names.
pub open spec fn marker() -> Seq<char> {
    "blackhole"@
}

/// Whether a device name marks the loopback device.
pub open spec fn is_loopback_name(name: Option<Seq<char>>) -> bool {
    match name {
        Some(n) => contains_seq(lower_of(n), marker()),
        None => false,
    }
}

pub open spec fn names_view(names: Seq<Option<String>>) -> Seq<Option<Seq<char>>> {
    names.map_values(|n: Option<String>| match n {
        Some(s) => Some(s@),
        None => None,
    })
}

/// Whether an already lowercased name contains `blackhole`.
pub fn mentions_blackhole(lowered: &str) -> (r: bool)
    ensures
        r == contains_seq(lowered@, marker()),
{
    let m: &str = "blackhole";
    proof {
        reveal_strlit("blackhole");
    }
    let n = lowered.unicode_len();
    let k = m.unicode_len();
    if k > n {
        proof {
            assert forall|i: int| 0 <= i && i + marker().len() <= lowered@.len() implies #[trigger] lowered@.subrange(i, i + marker().len()) != marker() by {}
        }
        return false;
    }
    let mut i: usize = 0;
    while i <= n - k
        invariant
            n == lowered@.len(),
            k == m@.len(),
            m@ == marker(),
            k <= n,
            i <= n - k + 1,
            forall|j: int| 0 <= j < i ==> #[trigger] lowered@.subrange(j, j + k) != marker(),
        decreases n - i,
    {
        let mut t: usize = 0;
        let mut same = true;
        while t < k
            invariant
                n == lowered@.len(),
                k == m@.len(),
                i + k <= n,
                t <= k,
                same == (forall|u: int| 0 <= u < t ==> lowered@[i + u] == m@[u]),
            decreases k - t,
        {
            if lowered.get_char(i + t) != m.get_char(t) {
                same = false;
            }
            t = t + 1;
        }
        if same {
            assert(lowered@.subrange(i as int, i + k) =~= marker());
            return true;
        }
        proof {
            if lowered@.subrange(i as int, i + k) == marker() {
                assert forall|u: int| 0 <= u < k implies lowered@[i + u] == m@[u] by {
                    assert(lowered@.subrange(i as int, i + k)[u] == lowered@[i + u]);
                }
            }
        }
        i = i + 1;
    }
    false
}

/// The index of the first device whose name, lowercased, contains
/// `blackhole`; `None` sends the caller to the default input device.
pub fn pick_input_device(names: &Vec<Option<String>>) -> (r: Option<usize>)
    ensures
        r matches Some(i) ==> i < names@.len() && is_loopback_name(names_view(names@)[i as int])
            && forall|j: int| 0 <= j < i ==> !is_loopback_name(#[trigger] names_view(names@)[j]),
        r is None ==> forall|j: int|
            0 <= j < names@.len() ==> !is_loopback_name(#[trigger] names_view(names@)[j]),
{
    let mut i: usize = 0;
    while i < names.len()
        invariant
            i <= names@.len(),
            forall|j: int| 0 <= j < i ==> !is_loopback_name(#[trigger] names_view(names@)[j]),
        decreases names@.len() - i,
    {
        match &names[i] {
            Some(name) => {
                let lowered = lowercase(name.as_str());
                if mentions_blackhole(lowered.as_str()) {
                    return Some(i);
                }
            },
            None => {},
        }
        i = i + 1;
    }
    None
}

} // verus!

//! Choosing the mount name of the card among the block-device labels.
use vstd::prelude::*;

verus! {

/// One entry of the directory of device labels.
pub struct LabelEntry {
    /// The label as text, or `None` when it is not valid Unicode.
    pub name: Option<String>,
    /// The device path the label resolves to.
    pub target: String,
}

/// The escape character.
pub const BACKSLASH: char = '\\';

/// What a label with escape sequences (`\x20` and the like) reads as, or `None` when
/// its escapes are malformed.
pub uninterp spec fn unescaped_text(s: Seq<char>) -> Option<Seq<char>>;

/// Relies on unescaper::unescape: the result depends on the text alone, and text
/// without a backslash comes back unchanged.
#[verifier::external_body]
fn unescape_label(s: &str) -> (r: Option<String>)
    ensures
        r matches Some(v) ==> unescaped_text(s@) == Some(v@),
        r is None ==> unescaped_text(s@) is None,
        r is Some || s@.contains(BACKSLASH),
        r matches Some(v) ==> v@ == s@ || s@.contains(BACKSLASH),
{
    unescaper::unescape(s).ok()
}

/// The index of the first entry that resolves to `device`.
pub open spec fn first_on_device(entries: Seq<LabelEntry>, device: Seq<char>) -> Option<int> {
    if exists|i: int| 0 <= i < entries.len() && #[trigger] entries[i].target@ == device {
        Some(choose|i: int| 0 <= i < entries.len() && #[trigger] entries[i].target@ == device
            && forall|j: int| 0 <= j < i ==> #[trigger] entries[j].target@ != device)
    } else {
        None
    }
}

/// The mount name that the label entries give for `device`: the first entry that
/// resolves to it decides, and its label must be text with well-formed escapes.
pub open spec fn mount_label(entries: Seq<LabelEntry>, device: Seq<char>) -> Option<Seq<char>> {
    match first_on_device(entries, device) {
        None => None,
        Some(i) => match entries[i].name {
            None => None,
            Some(n) => unescaped_text(n@),
        },
    }
}

/// The mount name of `device` according to the label entries.
pub fn pick_mount_label(entries: &Vec<LabelEntry>, device: &str) -> (r: Option<String>)
    ensures
        r is Some <==> mount_label(entries@, device@) is Some,
        r matches Some(v) ==> mount_label(entries@, device@) == Some(v@),
{
    let dev = device.to_owned();
    let mut i: usize = 0;
    while i < entries.len()
        invariant
            i <= entries.len(),
            dev@ == device@,
            forall|j: int| 0 <= j < i ==> #[trigger] entries@[j].target@ != device@,
        decreases entries.len() - i,
    {
        if entries[i].target == dev {
            proof {
                let k = choose|k: int| 0 <= k < entries@.len() && #[trigger] entries@[k].target@ == device@
                    && forall|j: int| 0 <= j < k ==> #[trigger] entries@[j].target@ != device@;
                assert(k == i as int) by {
                    if k < i {
                        assert(entries@[k].target@ != device@);
                    } else if k > i {
                        assert(entries@[i as int].target@ != device@);
                    }
                }
            }
            return match &entries[i].name {
                None => None,
                Some(raw) => unescape_label(raw.as_str()),
            };
        }
        i = i + 1;
    }
    None
}

} // verus!

//! Node identities: a link qualified by its volume, written `volume~link`.
//!
//! Two volumes are reserved. Nodes created before the server has heard of them
//! live on [`LOCAL_VOLUME`]; the synthetic shared directory lives on
//! [`VIRTUAL_VOLUME`].

use crate::text::{
    chars_of, concat3, decimal, decimal_text, find_char, first_index, lemma_decimal,
    lemma_first_index, lemma_first_index_is, lemma_signed_decimal_injective, same_text,
    signed_decimal, signed_decimal_text, string_between,
};
use vstd::prelude::*;

verus! {

/// Volume of a node that exists only on this machine, so far.
pub const LOCAL_VOLUME: &'static str = "local";

/// Volume of the directories this daemon invents.
pub const VIRTUAL_VOLUME: &'static str = "virtual";

/// Link of the synthetic directory that holds incoming shares.
pub const SHARED_WITH_ME_LINK: &'static str = "sharedwithme";

/// What a [`NodeUid`] stands for.
#[verifier::ext_equal]
pub struct Uid {
    pub volume: Seq<char>,
    pub link: Seq<char>,
}

/// Globally addresses a node.
#[derive(Debug, PartialEq, Eq, Hash)]
pub struct NodeUid {
    pub volume_id: String,
    pub link_id: String,
}

impl View for NodeUid {
    type V = Uid;

    open spec fn view(&self) -> Uid {
        Uid { volume: self.volume_id@, link: self.link_id@ }
    }
}

impl Clone for NodeUid {
    fn clone(&self) -> (r: Self)
        ensures
            r == *self,
    {
        NodeUid { volume_id: self.volume_id.clone(), link_id: self.link_id.clone() }
    }
}

impl Uid {
    /// Whether the node exists only on this machine.
    pub open spec fn is_local(self) -> bool {
        self.volume == "local"@
    }

    /// Whether the node is one this daemon invented.
    pub open spec fn is_virtual(self) -> bool {
        self.volume == "virtual"@ && self.link == "sharedwithme"@
    }

    /// The written form.
    pub open spec fn text(self) -> Seq<char> {
        self.volume + seq!['~'] + self.link
    }

    /// Whether both halves can be told apart in the written form.
    pub open spec fn well_formed(self) -> bool {
        &&& self.volume.len() > 0
        &&& self.link.len() > 0
        &&& !self.volume.contains('~')
        &&& !self.link.contains('~')
    }
}

/// The uid that `s` writes: two nonempty halves around the only `~`.
pub open spec fn uid_written(s: Seq<char>) -> Option<Uid> {
    let i = first_index(s, '~');
    if i >= s.len() {
        None
    } else {
        let uid = Uid { volume: s.take(i), link: s.skip(i + 1) };
        if uid.volume.len() == 0 || uid.link.len() == 0 || uid.link.contains('~') {
            None
        } else {
            Some(uid)
        }
    }
}

/// Writing a well-formed uid and reading it back gives the same uid.
pub proof fn law_uid_round_trip(uid: Uid)
    requires
        uid.well_formed(),
    ensures
        uid_written(uid.text()) == Some(uid),
{
    let s = uid.text();
    let n = uid.volume.len() as int;
    assert(s[n] == '~');
    assert forall|j: int| 0 <= j < n implies s[j] != '~' by {
        assert(s[j] == uid.volume[j]);
        assert(uid.volume.contains(uid.volume[j]));
    }
    lemma_first_index_is(s, '~', n);
    assert(s.take(n) =~= uid.volume);
    assert(s.skip(n + 1) =~= uid.link);
}

/// Whatever text reads as a uid is that uid's written form, and the uid is
/// well formed.
pub proof fn law_uid_text_unique(s: Seq<char>)
    requires
        uid_written(s) is Some,
    ensures
        uid_written(s)->0.well_formed(),
        uid_written(s)->0.text() == s,
{
    let uid = uid_written(s)->0;
    lemma_first_index(s, '~');
    let i = first_index(s, '~');
    assert(uid.text() =~= s);
    assert forall|j: int| 0 <= j < uid.volume.len() implies uid.volume[j] != '~' by {
        assert(s[j] == uid.volume[j]);
    }
}

/// A locally minted uid is never one of the daemon's synthetic directories.
pub proof fn law_local_is_not_virtual(uid: Uid)
    ensures
        !(uid.is_local() && uid.is_virtual()),
{
    reveal_strlit("local");
    reveal_strlit("virtual");
    assert("local"@.len() != "virtual"@.len());
}

impl NodeUid {
    pub fn new(volume_id: String, link_id: String) -> (r: Self)
        ensures
            r@ == (Uid { volume: volume_id@, link: link_id@ }),
            r.volume_id == volume_id,
            r.link_id == link_id,
    {
        NodeUid { volume_id, link_id }
    }

    /// The written form, `volume~link`.
    pub fn to_text(&self) -> (r: String)
        ensures
            r@ == self@.text(),
    {
        proof {
            reveal_strlit("~");
            assert("~"@ =~= seq!['~']);
        }
        concat3(self.volume_id.as_str(), "~", self.link_id.as_str())
    }
}

/// Whether two uids address the same node.
pub fn same_uid(a: &NodeUid, b: &NodeUid) -> (r: bool)
    ensures
        r == (a@ == b@),
{
    let r = a.volume_id == b.volume_id && a.link_id == b.link_id;
    assert(r ==> a@ =~= b@);
    r
}

/// Whether two optional uids agree.
pub fn same_opt_uid(a: &Option<NodeUid>, b: &Option<NodeUid>) -> (r: bool)
    ensures
        r == match (a, b) {
            (Some(x), Some(y)) => x@ == y@,
            (None, None) => true,
            _ => false,
        },
{
    match (a, b) {
        (Some(x), Some(y)) => same_uid(x, y),
        (None, None) => true,
        _ => false,
    }
}

/// The synthetic directory that holds incoming shares.
pub fn shared_with_me_uid() -> (r: NodeUid)
    ensures
        r@.is_virtual(),
{
    NodeUid { volume_id: VIRTUAL_VOLUME.to_owned(), link_id: SHARED_WITH_ME_LINK.to_owned() }
}

/// Parse a `volume~link` text back into a [`NodeUid`].
pub fn parse_uid(s: &str) -> (r: Option<NodeUid>)
    ensures
        match r {
            Some(uid) => uid_written(s@) == Some(uid@),
            None => uid_written(s@) is None,
        },
{
    let v = chars_of(s);
    proof {
        lemma_first_index(s@, '~');
    }
    let i: usize = match find_char(v.as_slice(), '~') {
        Some(i) => i,
        None => {
            return None;
        },
    };
    let n: usize = v.len();
    let vol = string_between(v.as_slice(), 0, i);
    let link = string_between(v.as_slice(), i + 1, n);
    assert(vol@ =~= s@.take(i as int));
    assert(link@ =~= s@.skip(i + 1));
    let linked = chars_of(link.as_str());
    proof {
        lemma_first_index(link@, '~');
    }
    let nested = match find_char(linked.as_slice(), '~') {
        Some(_) => true,
        None => false,
    };
    if i == 0 || i + 1 == n || nested {
        return None;
    }
    Some(NodeUid { volume_id: vol, link_id: link })
}

/// Parse a [`NodeUid`] back from its persisted form.
pub fn parse_node_uid(s: &str) -> (r: Option<NodeUid>)
    ensures
        match r {
            Some(uid) => uid_written(s@) == Some(uid@),
            None => uid_written(s@) is None,
        },
{
    parse_uid(s)
}

/// Whether this node exists only on this machine, so far. Such a uid is
/// meaningless to the API and must never be sent to it.
pub fn is_local_uid(uid: &NodeUid) -> (r: bool)
    ensures
        r == uid@.is_local(),
{
    same_text(uid.volume_id.as_str(), LOCAL_VOLUME)
}

/// Whether this is the synthetic shared directory.
pub fn is_virtual_uid(uid: &NodeUid) -> (r: bool)
    ensures
        r == uid@.is_virtual(),
{
    same_text(uid.volume_id.as_str(), VIRTUAL_VOLUME) && same_text(
        uid.link_id.as_str(),
        SHARED_WITH_ME_LINK,
    )
}

/// Whether the node sits on the account's own volume or is synthetic.
pub fn is_own_or_virtual_uid(uid: &NodeUid, own_volume: &str) -> (r: bool)
    ensures
        r == (uid@.volume == own_volume@ || uid@.is_virtual()),
{
    same_text(uid.volume_id.as_str(), own_volume) || is_virtual_uid(uid)
}

/// Whether a persisted uid text names a node of the local volume.
pub open spec fn text_is_local(s: Seq<char>) -> bool {
    first_index(s, '~') < s.len() && s.take(first_index(s, '~')) == "local"@
}

/// [`is_local_uid`] for a uid in its persisted form.
pub fn is_local_uid_str(s: &str) -> (r: bool)
    ensures
        r == text_is_local(s@),
{
    let v = chars_of(s);
    match find_char(v.as_slice(), '~') {
        Some(i) => {
            let vol = string_between(v.as_slice(), 0, i);
            assert(vol@ =~= s@.take(i as int));
            same_text(vol.as_str(), LOCAL_VOLUME)
        },
        None => false,
    }
}

/// The persisted form of a well-formed uid is local exactly when the uid is.
pub proof fn law_local_text_agrees(uid: Uid)
    requires
        uid.well_formed(),
    ensures
        text_is_local(uid.text()) == uid.is_local(),
{
    law_uid_round_trip(uid);
    lemma_first_index(uid.text(), '~');
}

/// The uid minted for the `seq`-th node created in the millisecond `now_ms`.
pub open spec fn minted(now_ms: int, seq: nat) -> Uid {
    Uid { volume: "local"@, link: signed_decimal(now_ms) + seq!['-'] + decimal(seq) }
}

/// Two mints agree only when both the clock and the counter do.
pub proof fn law_minted_uids_differ(a: int, i: nat, b: int, j: nat)
    requires
        minted(a, i) == minted(b, j),
    ensures
        a == b,
        i == j,
{
    lemma_decimal(i);
    lemma_decimal(j);
    let s = minted(a, i).link;
    let x = signed_decimal(a).len() as int;
    let y = signed_decimal(b).len() as int;
    assert(s == signed_decimal(a) + seq!['-'] + decimal(i));
    assert(s == signed_decimal(b) + seq!['-'] + decimal(j));
    assert(s[x] == '-');
    assert(s[y] == '-');
    assert(s.len() == y + 1 + decimal(j).len());
    if x < y {
        let t = decimal(i);
        assert(s[y] == t[y - x - 1]);
        assert('0' <= t[y - x - 1]);
    }
    if y < x {
        let t = decimal(j);
        assert(s[x] == t[x - y - 1]);
        assert('0' <= t[x - y - 1]);
    }
    assert(s.skip(x + 1) =~= decimal(i));
    assert(s.skip(y + 1) =~= decimal(j));
    assert(s.take(x) =~= signed_decimal(a));
    assert(s.take(y) =~= signed_decimal(b));
    lemma_signed_decimal_injective(a, b);
}

/// Invent a uid for a node created while offline. The clock separates runs and
/// the counter separates nodes within one.
pub fn mint_local_uid(now_ms: i64, seq: u64) -> (r: NodeUid)
    ensures
        r@ == minted(now_ms as int, seq as nat),
        r@.is_local(),
{
    let stamp = signed_decimal_text(now_ms);
    let count = decimal_text(seq);
    proof {
        reveal_strlit("-");
        assert("-"@ =~= seq!['-']);
    }
    NodeUid {
        volume_id: LOCAL_VOLUME.to_owned(),
        link_id: concat3(stamp.as_str(), "-", count.as_str()),
    }
}

/// There is one synthetic folder, and a node that is not on the remote yet is on a volume of
/// its own kind.
pub proof fn law_there_is_one_synthetic_folder(a: Uid, b: Uid)
    ensures
        a.is_virtual() && b.is_virtual() ==> a == b,
        a.is_virtual() ==> a.text() == "virtual"@ + seq!['~'] + "sharedwithme"@,
        a.is_local() && b.volume == a.volume ==> b.is_local(),
        a.is_local() && b.is_local() ==> a.volume == b.volume,
{
}

/// A text is taken for a uid that is not on the remote yet only if it begins with that volume
/// and the mark behind it.
pub proof fn law_local_texts_begin_with_their_volume(s: Seq<char>, link: Seq<char>)
    ensures
        text_is_local(s) ==> ("local"@ + seq!['~']).is_prefix_of(s),
        text_is_local(s) ==> s.contains('~'),
        text_is_local("local"@ + seq!['~'] + link),
{
    lemma_first_index(s, '~');
    let i = first_index(s, '~');
    if text_is_local(s) {
        assert(s[i] == '~');
        assert(s.take(i + 1) =~= "local"@ + seq!['~']);
    }
    reveal_strlit("local");
    let t = "local"@ + seq!['~'] + link;
    lemma_first_index(t, '~');
    assert(t[5] == '~');
    assert(forall|k: int| 0 <= k < 5 ==> t[k] != '~') by {
        assert(t[0] == 'l' && t[1] == 'o' && t[2] == 'c' && t[3] == 'a' && t[4] == 'l');
    }
    assert(first_index(t, '~') == 5);
    assert(t.take(5) =~= "local"@);
}

} // verus!

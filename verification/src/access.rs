//! Who may write what.

use crate::error::{CoreError, Errno};
use crate::text::{concat2, same_text};
use crate::uid::NodeUid;
use vstd::prelude::*;

verus! {

/// What this account may do with a node.
#[derive(Clone, Copy, Debug, PartialEq, Eq, Structural)]
pub enum Access {
    Owner,
    Editor,
    Viewer,
    /// Not resolved yet.
    Unknown,
}

/// A role in a share.
#[derive(Clone, Copy, Debug, PartialEq, Eq, Structural)]
pub enum MemberRole {
    Viewer,
    Editor,
    Admin,
    Inherited,
}

impl Access {
    /// Whether the node may be changed. What is not known is not writable.
    pub open spec fn can_write(self) -> bool {
        self == Access::Owner || self == Access::Editor
    }

    pub fn writable(&self) -> (r: bool)
        ensures
            r == self.can_write(),
    {
        match self {
            Access::Owner => true,
            Access::Editor => true,
            _ => false,
        }
    }
}

/// What a role in a share allows; an inherited role allows what the parent does.
pub open spec fn role_access(role: MemberRole, inherited: Access) -> Access {
    match role {
        MemberRole::Viewer => Access::Viewer,
        MemberRole::Editor => Access::Editor,
        MemberRole::Admin => Access::Editor,
        MemberRole::Inherited => inherited,
    }
}

/// What a role in a share allows.
pub fn access_for(role: MemberRole, inherited: Access) -> (r: Access)
    ensures
        r == role_access(role, inherited),
{
    match role {
        MemberRole::Viewer => Access::Viewer,
        MemberRole::Editor => Access::Editor,
        MemberRole::Admin => Access::Editor,
        MemberRole::Inherited => inherited,
    }
}

/// Whether a node may be written, as agreed by every authority that has an
/// opinion, or the fact that none of them does.
#[derive(Clone, Copy, Debug, PartialEq, Eq, Structural)]
pub enum WriteAuthority {
    /// The persisted tree and every resident mount agree.
    Writable,
    /// At least one authority refuses, or could not be consulted.
    Denied,
    /// The node is not in the local tree, so there is nobody to consult.
    Unknown,
}

/// The agreement of the persisted tree and the live ones. A failed lookup is a
/// refusal.
pub open spec fn authority(
    persisted: Result<Option<Access>, ()>,
    live: Seq<Access>,
) -> WriteAuthority {
    match persisted {
        Err(()) => WriteAuthority::Denied,
        Ok(None) => WriteAuthority::Unknown,
        Ok(Some(access)) => if access.can_write() && forall|i: int|
            0 <= i < live.len() ==> (#[trigger] live[i]).can_write() {
            WriteAuthority::Writable
        } else {
            WriteAuthority::Denied
        },
    }
}

/// Ask the persisted tree and every live mount whether a node is writable.
pub fn uid_write_authority(
    persisted: Result<Option<Access>, ()>,
    live_access: &Vec<Access>,
) -> (r: WriteAuthority)
    ensures
        r == authority(persisted, live_access@),
        r is Writable <==> (persisted is Ok && persisted->Ok_0 is Some && (persisted->Ok_0->0
            is Owner || persisted->Ok_0->0 is Editor) && forall|i: int|
            0 <= i < live_access@.len() ==> #[trigger] live_access@[i] is Owner || live_access@[i]
                is Editor),
        r is Unknown <==> persisted == Ok::<Option<Access>, ()>(None),
{
    let access = match persisted {
        Err(()) => {
            return WriteAuthority::Denied;
        },
        Ok(None) => {
            return WriteAuthority::Unknown;
        },
        Ok(Some(access)) => access,
    };
    if !access.writable() {
        return WriteAuthority::Denied;
    }
    let mut i: usize = 0;
    while i < live_access.len()
        invariant
            i <= live_access@.len(),
            persisted == Ok::<Option<Access>, ()>(Some(access)),
            access.can_write(),
            forall|j: int| 0 <= j < i ==> (#[trigger] live_access@[j]).can_write(),
        decreases live_access@.len() - i,
    {
        if !live_access[i].writable() {
            assert(!live_access@[i as int].can_write());
            return WriteAuthority::Denied;
        }
        i = i + 1;
    }
    WriteAuthority::Writable
}

/// One refusal is enough: a further live authority never turns a refusal into
/// permission.
pub proof fn law_authority_only_shrinks(
    persisted: Result<Option<Access>, ()>,
    live: Seq<Access>,
    more: Access,
)
    ensures
        authority(persisted, live.push(more)) is Writable ==> authority(persisted, live) is Writable,
        authority(persisted, live) is Denied ==> authority(persisted, live.push(more)) is Denied,
        !more.can_write() ==> !(authority(persisted, live.push(more)) is Writable),
{
    let all = live.push(more);
    if forall|i: int| 0 <= i < all.len() ==> (#[trigger] all[i]).can_write() {
        assert forall|i: int| 0 <= i < live.len() implies (#[trigger] live[i]).can_write() by {
            assert(all[i].can_write());
        }
        assert(all[live.len() as int].can_write());
    }
}

/// Whether a live request against a node is let through: only where every
/// authority agrees. A node that nobody speaks for is refused as well.
pub fn require_uid_writable(authority: WriteAuthority) -> (r: Result<(), Errno>)
    ensures
        r == (if authority is Writable {
            Ok::<(), Errno>(())
        } else {
            Err(Errno::Acces)
        }),
{
    match authority {
        WriteAuthority::Writable => Ok(()),
        WriteAuthority::Denied => Err(Errno::Acces),
        WriteAuthority::Unknown => Err(Errno::Acces),
    }
}

/// Whether `require` may let a request on `uid` through.
pub open spec fn admits<F: Fn(&NodeUid) -> Result<(), Errno>>(require: F, uid: &NodeUid) -> bool {
    exists|a: Result<(), Errno>| #[trigger] call_ensures(require, (uid,), a) && a is Ok
}

/// A rename needs the node, the folder it leaves and the folder it enters; the
/// first that is refused, in this order, decides, and none is asked after it.
pub fn require_rename_access<F: Fn(&NodeUid) -> Result<(), Errno>>(
    require: F,
    uid: &NodeUid,
    old_parent_uid: &NodeUid,
    new_parent_uid: &NodeUid,
) -> (r: Result<(), Errno>)
    requires
        call_requires(require, (uid,)),
        admits(require, uid) ==> call_requires(require, (old_parent_uid,)),
        admits(require, uid) && admits(require, old_parent_uid) ==> call_requires(
            require,
            (new_parent_uid,),
        ),
    ensures
        match r {
            Ok(()) => {
                &&& admits(require, uid)
                &&& admits(require, old_parent_uid)
                &&& admits(require, new_parent_uid)
            },
            Err(e) => {
                ||| call_ensures(require, (uid,), Err(e))
                ||| admits(require, uid) && call_ensures(require, (old_parent_uid,), Err(e))
                ||| admits(require, uid) && admits(require, old_parent_uid) && call_ensures(
                    require,
                    (new_parent_uid,),
                    Err(e),
                )
            },
        },
{
    let first = require(uid);
    if first.is_err() {
        return first;
    }
    let second = require(old_parent_uid);
    if second.is_err() {
        return second;
    }
    require(new_parent_uid)
}

/// A change to a node needs the node and its folder; the first that is refused
/// decides, and none is asked after it.
pub fn require_node_parent_access<F: Fn(&NodeUid) -> Result<(), Errno>>(
    require: F,
    uid: &NodeUid,
    parent_uid: &NodeUid,
) -> (r: Result<(), Errno>)
    requires
        call_requires(require, (uid,)),
        admits(require, uid) ==> call_requires(require, (parent_uid,)),
    ensures
        match r {
            Ok(()) => admits(require, uid) && admits(require, parent_uid),
            Err(e) => call_ensures(require, (uid,), Err(e)) || (admits(require, uid)
                && call_ensures(require, (parent_uid,), Err(e))),
        },
{
    let first = require(uid);
    if first.is_err() {
        return first;
    }
    require(parent_uid)
}

/// Whether bytes that were already accepted have to be kept although the write
/// is refused.
pub fn must_preserve(access: Result<(), Errno>, accepted_bytes: bool) -> (r: bool)
    ensures
        r == (access == Err::<(), Errno>(Errno::Acces) && accepted_bytes),
{
    match access {
        Err(Errno::Acces) => accepted_bytes,
        _ => false,
    }
}

/// Pass an access decision on. Bytes that were already accepted are preserved
/// before a refusal is reported.
pub fn preserve_on_access_denied<F: FnOnce()>(
    access: Result<(), Errno>,
    accepted_bytes: bool,
    preserve: F,
) -> (r: Result<(), Errno>)
    requires
        access == Err::<(), Errno>(Errno::Acces) && accepted_bytes ==> call_requires(preserve, ()),
    ensures
        r == access,
        access == Err::<(), Errno>(Errno::Acces) && accepted_bytes ==> call_ensures(
            preserve,
            (),
            (),
        ),
{
    if must_preserve(access, accepted_bytes) {
        preserve();
    }
    access
}

/// The wire form of a role.
pub open spec fn role_text(role: MemberRole) -> Seq<char> {
    match role {
        MemberRole::Viewer => "viewer"@,
        MemberRole::Editor => "editor"@,
        MemberRole::Admin => "admin"@,
        MemberRole::Inherited => "inherited"@,
    }
}

/// The wire form of a role.
pub fn role_to_str(role: MemberRole) -> (r: &'static str)
    ensures
        r@ == role_text(role),
{
    match role {
        MemberRole::Viewer => "viewer",
        MemberRole::Editor => "editor",
        MemberRole::Admin => "admin",
        MemberRole::Inherited => "inherited",
    }
}

/// What `str::to_lowercase` makes of a text.
pub uninterp spec fn lowercase(s: Seq<char>) -> Seq<char>;

/// Calls `str::to_lowercase`: the Unicode lower-case equivalent of a text,
/// which depends on the text alone.
#[verifier::external_body]
pub(crate) fn to_lowercase(s: &str) -> (r: String)
    ensures
        r@ == lowercase(s@),
{
    s.to_lowercase()
}

/// The role that a lower-case text names, where an invitation can carry it. An
/// inherited role cannot be sent.
pub open spec fn sendable_role(lower: Seq<char>) -> Option<MemberRole> {
    if lower == "viewer"@ {
        Some(MemberRole::Viewer)
    } else if lower == "editor"@ {
        Some(MemberRole::Editor)
    } else if lower == "admin"@ {
        Some(MemberRole::Admin)
    } else {
        None
    }
}

/// Read a role that is already in lower case.
pub fn role_of_lowercase(lower: &str) -> (r: Result<MemberRole, CoreError>)
    ensures
        match r {
            Ok(role) => sendable_role(lower@) == Some(role),
            Err(e) => sendable_role(lower@) is None && e.reads(
                crate::error::ErrorKind::Invalid,
                "invalid role: "@ + lower@,
            ),
        },
{
    if same_text(lower, "viewer") {
        Ok(MemberRole::Viewer)
    } else if same_text(lower, "editor") {
        Ok(MemberRole::Editor)
    } else if same_text(lower, "admin") {
        Ok(MemberRole::Admin)
    } else {
        Err(CoreError::invalid(concat2("invalid role: ", lower)))
    }
}

/// Read the wire form of a role, whatever its case.
pub fn role_from_str(role: &str) -> (r: Result<MemberRole, CoreError>)
    ensures
        match r {
            Ok(parsed) => sendable_role(lowercase(role@)) == Some(parsed),
            Err(e) => sendable_role(lowercase(role@)) is None && e.reads(
                crate::error::ErrorKind::Invalid,
                "invalid role: "@ + lowercase(role@),
            ),
        },
{
    let lower = to_lowercase(role);
    role_of_lowercase(lower.as_str())
}

/// Every role that can be sent reads back as itself; the inherited one never
/// does.
pub proof fn law_sendable_roles_round_trip(role: MemberRole)
    ensures
        role != MemberRole::Inherited ==> sendable_role(role_text(role)) == Some(role),
        role == MemberRole::Inherited ==> sendable_role(role_text(role)) is None,
{
    reveal_strlit("viewer");
    reveal_strlit("editor");
    reveal_strlit("admin");
    reveal_strlit("inherited");
    assert("viewer"@[0] == 'v');
    assert("editor"@[0] == 'e');
    assert("admin"@[0] == 'a');
    assert("inherited"@[0] == 'i');
}

/// A public link as the remote tells of it.
#[derive(Debug)]
pub struct PublicLink {
    pub id: String,
    pub url: String,
    pub role: MemberRole,
    pub expires: Option<i64>,
    pub has_password: bool,
}

/// A public link as a front-end is told of it.
#[derive(Debug)]
pub struct PublicLinkInfo {
    pub id: String,
    pub url: String,
    pub role: String,
    pub expires: Option<i64>,
    pub has_password: bool,
}

/// A public link as a front-end is told of it.
pub fn public_link_info(link: PublicLink) -> (r: PublicLinkInfo)
    ensures
        r.id == link.id,
        r.url == link.url,
        r.role@ == role_text(link.role),
        r.expires == link.expires,
        r.has_password == link.has_password,
{
    PublicLinkInfo {
        id: link.id,
        url: link.url,
        role: role_to_str(link.role).to_owned(),
        expires: link.expires,
        has_password: link.has_password,
    }
}

/// Only an owner and an editor may write. A role gives what it says, whatever the folder
/// gives; only an inherited one gives what the folder does.
pub proof fn law_roles_give_what_they_say(role: MemberRole, inherited: Access)
    ensures
        inherited.can_write() <==> inherited is Owner || inherited is Editor,
        role is Viewer ==> !role_access(role, inherited).can_write(),
        role is Editor || role is Admin ==> role_access(role, inherited).can_write(),
        role is Inherited ==> role_access(role, inherited) == inherited,
        role_access(role, inherited) is Owner ==> role is Inherited && inherited is Owner,
        role_access(role, inherited) is Unknown ==> role is Inherited && inherited is Unknown,
{
}

/// A role is read from its own text and from no other.
pub proof fn law_roles_are_read_from_their_text(lower: Seq<char>, a: MemberRole, b: MemberRole)
    ensures
        sendable_role(lower) is Some ==> role_text(sendable_role(lower)->0) == lower,
        sendable_role(lower) != Some(MemberRole::Inherited),
        role_text(a) == role_text(b) ==> a == b,
{
    reveal_strlit("viewer");
    reveal_strlit("editor");
    reveal_strlit("admin");
    reveal_strlit("inherited");
    assert("viewer"@[0] == 'v');
    assert("editor"@[0] == 'e');
    assert("admin"@[0] == 'a');
    assert("inherited"@[0] == 'i');
}

} // verus!

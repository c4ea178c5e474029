//! Kernel notifications, recorded while an inode space is being changed and
//! sent once it is not.
//!
//! Inode numbers mean something only to the mount that minted them, so every
//! batch belongs to one mount.

use vstd::prelude::*;

verus! {

/// One kernel notification.
#[derive(Debug, PartialEq, Eq)]
pub enum KernelNotice {
    InvalInode(u64),
    InvalEntry { parent: u64, name: String },
    Delete { parent: u64, child: u64, name: String },
}

/// What a [`KernelNotice`] says.
pub enum Notice {
    InvalInode(u64),
    InvalEntry { parent: u64, name: Seq<char> },
    Delete { parent: u64, child: u64, name: Seq<char> },
}

impl View for KernelNotice {
    type V = Notice;

    open spec fn view(&self) -> Notice {
        match self {
            KernelNotice::InvalInode(ino) => Notice::InvalInode(*ino),
            KernelNotice::InvalEntry { parent, name } => Notice::InvalEntry {
                parent: *parent,
                name: name@,
            },
            KernelNotice::Delete { parent, child, name } => Notice::Delete {
                parent: *parent,
                child: *child,
                name: name@,
            },
        }
    }
}

/// Notifications for one mount, in the order in which they are to be sent.
#[derive(Debug, PartialEq, Eq)]
pub struct NotifyBatch(pub Vec<KernelNotice>);

impl View for NotifyBatch {
    type V = Seq<Notice>;

    open spec fn view(&self) -> Seq<Notice> {
        self.0@.map_values(|n: KernelNotice| n@)
    }
}

/// One notification per inode.
pub open spec fn inval_all(inodes: Seq<u64>) -> Seq<Notice> {
    inodes.map_values(|ino: u64| Notice::InvalInode(ino))
}

impl NotifyBatch {
    pub fn new() -> (r: Self)
        ensures
            r@ == Seq::<Notice>::empty(),
    {
        let r = NotifyBatch(Vec::new());
        assert(r@ =~= Seq::<Notice>::empty());
        r
    }

    /// Drop what the kernel cached about `ino`.
    pub fn inval_inode(&mut self, ino: u64)
        ensures
            final(self)@ == old(self)@.push(Notice::InvalInode(ino)),
    {
        let ghost before = self@;
        self.0.push(KernelNotice::InvalInode(ino));
        assert(self@ =~= before.push(Notice::InvalInode(ino)));
    }

    /// Drop what the kernel cached about a dentry.
    pub fn inval_entry(&mut self, parent: u64, name: String)
        ensures
            final(self)@ == old(self)@.push(Notice::InvalEntry { parent, name: name@ }),
    {
        let ghost before = self@;
        let ghost text = name@;
        self.0.push(KernelNotice::InvalEntry { parent, name });
        assert(self@ =~= before.push(Notice::InvalEntry { parent, name: text }));
    }

    /// Tell the kernel that a dentry is gone.
    pub fn delete(&mut self, parent: u64, child: u64, name: String)
        ensures
            final(self)@ == old(self)@.push(Notice::Delete { parent, child, name: name@ }),
    {
        let ghost before = self@;
        let ghost text = name@;
        self.0.push(KernelNotice::Delete { parent, child, name });
        assert(self@ =~= before.push(Notice::Delete { parent, child, name: text }));
    }

    /// Drop what the kernel cached about each of `inodes`, in order.
    pub fn extend_inodes(&mut self, inodes: &[u64])
        ensures
            final(self)@ == old(self)@ + inval_all(inodes@),
    {
        let ghost before = self@;
        let mut i: usize = 0;
        assert(before + inval_all(inodes@.take(0)) =~= before);
        while i < inodes.len()
            invariant
                i <= inodes@.len(),
                self@ == before + inval_all(inodes@.take(i as int)),
            decreases inodes@.len() - i,
        {
            self.inval_inode(inodes[i]);
            i = i + 1;
            assert(inodes@.take(i as int) =~= inodes@.take(i - 1).push(inodes@[i - 1]));
            assert(self@ =~= before + inval_all(inodes@.take(i as int)));
        }
        assert(inodes@.take(i as int) =~= inodes@);
    }

    /// What to send, in order, once the inode space is no longer locked. A
    /// mount whose session does not run has nobody to tell.
    pub fn flush(self, session_runs: bool) -> (r: Vec<KernelNotice>)
        ensures
            r@ == (if session_runs {
                self.0@
            } else {
                Seq::<KernelNotice>::empty()
            }),
    {
        if session_runs {
            self.0
        } else {
            Vec::new()
        }
    }
}

/// The kernel is told of each inode that is named, in that order, and of no other.
pub proof fn law_each_inode_is_told(inodes: Seq<u64>, ino: u64)
    ensures
        inval_all(inodes).len() == inodes.len(),
        inval_all(inodes).contains(Notice::InvalInode(ino)) <==> inodes.contains(ino),
        forall|i: int|
            0 <= i < inodes.len() ==> #[trigger] inval_all(inodes)[i] is InvalInode,
{
    let all = inval_all(inodes);
    if inodes.contains(ino) {
        let i = choose|i: int| 0 <= i < inodes.len() && inodes[i] == ino;
        assert(all[i] == Notice::InvalInode(ino));
    }
    if all.contains(Notice::InvalInode(ino)) {
        let i = choose|i: int| 0 <= i < all.len() && all[i] == Notice::InvalInode(ino);
        assert(inodes[i] == ino);
    }
}

} // verus!

//! Normalises the raw window-change stream.  The window manager follows every
//! newly created window with a spurious `Focus` notification for the same
//! window; this state machine suppresses that pair and passes every genuine
//! focus change or retitle through.

use vstd::prelude::*;

verus! {

/// The kind of a raw window-change notification, as the event source tags it.
#[derive(Clone, Copy, Debug, PartialEq, Eq, Structural)]
pub enum ChangeKind {
    New,
    Focus,
    Title,
    Other,
}

/// What the normalizer emits: a genuine focus change, or a title change of
/// the focused window, each carrying the window's identifier.
#[derive(Clone, Copy, Debug, PartialEq, Eq, Structural)]
pub enum Normalized {
    WindowActivated(u64),
    WindowRetitled(u64),
}

/// The two effective states of the normalizer, discriminated by
/// `pending_new_id`: awaiting focus confirmation for that window, or idle.
pub struct Normalizer {
    pub pending_new_id: Option<u64>,
}

/// The suppression window after one notification: `New` opens it for its
/// window, `Focus` and `Title` close it, other kinds leave it alone.
pub open spec fn pending_after(pending: Option<u64>, kind: ChangeKind, id: u64) -> Option<u64> {
    match kind {
        ChangeKind::New => Some(id),
        ChangeKind::Focus => None,
        ChangeKind::Title => None,
        ChangeKind::Other => pending,
    }
}

/// What one notification makes the normalizer emit: nothing for `New` and
/// unclassified kinds, nothing for the `Focus` that confirms a pending `New`
/// of the same window, an activation for every other `Focus`, and a retitle
/// for every `Title`.
pub open spec fn emission(pending: Option<u64>, kind: ChangeKind, id: u64) -> Option<Normalized> {
    match kind {
        ChangeKind::New => None,
        ChangeKind::Focus => if pending == Some(id) {
            None
        } else {
            Some(Normalized::WindowActivated(id))
        },
        ChangeKind::Title => Some(Normalized::WindowRetitled(id)),
        ChangeKind::Other => None,
    }
}

impl Normalizer {
    /// A normalizer in its initial, idle state.
    pub fn new() -> (n: Normalizer)
        ensures
            n.pending_new_id is None,
    {
        Normalizer { pending_new_id: None }
    }

    /// Feeds one raw notification through the state machine and returns what,
    /// if anything, it emits.
    pub fn observe(&mut self, kind: ChangeKind, window_id: u64) -> (r: Option<Normalized>)
        ensures
            final(self).pending_new_id == pending_after(old(self).pending_new_id, kind, window_id),
            r == emission(old(self).pending_new_id, kind, window_id),
    {
        match kind {
            ChangeKind::New => {
                self.pending_new_id = Some(window_id);
                None
            },
            ChangeKind::Focus => {
                let suppress: bool = match self.pending_new_id {
                    Some(p) => p == window_id,
                    None => false,
                };
                self.pending_new_id = None;
                if suppress {
                    None
                } else {
                    Some(Normalized::WindowActivated(window_id))
                }
            },
            ChangeKind::Title => {
                self.pending_new_id = None;
                Some(Normalized::WindowRetitled(window_id))
            },
            ChangeKind::Other => None,
        }
    }
}

/// No phantom activation: whatever state the normalizer is in, a `New`
/// notification followed at once by `Focus` for the same window emits nothing
/// at either step.
pub proof fn lemma_no_phantom_activation(pending: Option<u64>, id: u64)
    ensures
        emission(pending, ChangeKind::New, id) is None,
        emission(pending_after(pending, ChangeKind::New, id), ChangeKind::Focus, id) is None,
{
}

/// Real activation: after a `New` for one window, a `Focus` for a different
/// window emits an activation.
pub proof fn lemma_real_activation(pending: Option<u64>, id: u64, id2: u64)
    requires
        id2 != id,
    ensures
        emission(pending_after(pending, ChangeKind::New, id), ChangeKind::Focus, id2) == Some(
            Normalized::WindowActivated(id2),
        ),
{
}

/// Real retitle: a `Title` notification emits a retitle whatever state the
/// normalizer is in.
pub proof fn lemma_title_always_emits(pending: Option<u64>, id: u64)
    ensures
        emission(pending, ChangeKind::Title, id) == Some(Normalized::WindowRetitled(id)),
{
}

/// The part of a window-class property reply that names the class: the bytes
/// before the first NUL.  The display-server lookup that produces the reply
/// is an outside collaborator; only its decoding is done here.
pub fn wm_class_prefix(bytes: &Vec<u8>) -> (r: Vec<u8>)
    ensures
        r@.len() <= bytes@.len(),
        r@ == bytes@.take(r@.len() as int),
        forall|j: int| 0 <= j < r@.len() ==> bytes@[j] != 0,
        r@.len() < bytes@.len() ==> bytes@[r@.len() as int] == 0,
{
    let mut r: Vec<u8> = Vec::new();
    let mut i: usize = 0;
    while i < bytes.len()
        invariant
            0 <= i <= bytes@.len(),
            r@ =~= bytes@.take(i as int),
            forall|j: int| 0 <= j < i ==> bytes@[j] != 0,
        decreases bytes@.len() - i,
    {
        let b: u8 = bytes[i];
        if b == 0 {
            return r;
        }
        r.push(b);
        i = i + 1;
    }
    r
}

} // verus!

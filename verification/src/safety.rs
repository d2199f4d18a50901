//! The consumption-ordering guard.
//!
//! A stream and the part readers it hands out share one underlying byte
//! buffer, so their reads must be serialized: the newest handle is the
//! only one allowed to touch the buffer.  The guard makes that rule a
//! runtime check.  One shared [`Safety`] state carries a counter of
//! outstanding tokens and a `clean` flag; each [`SafetyToken`] records
//! the counter value at its creation.  A token is *current* exactly when
//! the live counter equals its snapshot and the tree is still clean, so
//! at most one token is current at any instant.  Releasing the current
//! token decrements the counter, promoting the previous one; releasing
//! the root token while newer tokens are outstanding clears the `clean`
//! flag permanently, after which every access fails rather than
//! corrupting the stream.

use vstd::prelude::*;

verus! {

/// The state shared by all tokens descending from one root.
pub struct Safety {
    count: u64,
    clean: bool,
}

/// A handle representing the right to access the shared buffer while it
/// is the most recently created outstanding token.
pub struct SafetyToken {
    level: u64,
}

impl SafetyToken {
    /// The counter snapshot taken when this token was created.
    pub closed spec fn level(&self) -> u64 {
        self.level
    }
}

impl Safety {
    /// The number of outstanding tokens.
    pub closed spec fn count(&self) -> u64 {
        self.count
    }

    /// Whether the token tree is still clean: no root was released while
    /// newer tokens were outstanding.
    pub closed spec fn clean(&self) -> bool {
        self.clean
    }

    /// Whether `t` is the current token.
    pub open spec fn token_current(&self, t: &SafetyToken) -> bool {
        self.count() == t.level() && self.clean()
    }

    /// Create a fresh guard state together with its root token.
    pub fn new() -> (r: (Safety, SafetyToken))
        ensures
            r.0.count() == 1,
            r.0.clean(),
            r.1.level() == 1,
            r.0.token_current(&r.1),
    {
        (Safety { count: 1, clean: true }, SafetyToken { level: 1 })
    }

    /// Create a new token, which becomes current and demotes every
    /// earlier one.
    pub fn clone_token(&mut self) -> (t: SafetyToken)
        requires
            old(self).count() < u64::MAX,
        ensures
            final(self).count() == old(self).count() + 1,
            final(self).clean() == old(self).clean(),
            t.level() == final(self).count(),
            1 <= t.level(),
    {
        self.count = self.count + 1;
        SafetyToken { level: self.count }
    }

    /// Whether `t` is the current token.
    pub fn current(&self, t: &SafetyToken) -> (r: bool)
        ensures
            r == self.token_current(t),
    {
        self.count == t.level && self.clean
    }

    /// Whether the token tree is still clean.
    pub fn is_clean(&self) -> (r: bool)
        ensures
            r == self.clean(),
    {
        self.clean
    }

    /// Release a token.  Releasing the current token promotes the
    /// previous one; releasing the root token out of order clears the
    /// `clean` flag permanently; releasing any other stale token changes
    /// nothing.
    pub fn release(&mut self, t: SafetyToken)
        requires
            1 <= t.level(),
        ensures
            old(self).token_current(&t) ==> final(self).count() == old(self).count() - 1
                && final(self).clean() == old(self).clean(),
            !old(self).token_current(&t) && t.level() == 1 && old(self).count() != 1
                ==> final(self).count() == old(self).count() && !final(self).clean(),
            !old(self).token_current(&t) && !(t.level() == 1 && old(self).count() != 1)
                ==> *final(self) == *old(self),
    {
        if self.count == t.level && self.clean {
            self.count = self.count - 1;
        } else if t.level == 1 && self.count != 1 {
            self.clean = false;
        }
    }
}

/// At most one token is current at any instant: two current tokens of
/// the same guard state carry the same snapshot.
pub proof fn lemma_single_current(s: &Safety, a: &SafetyToken, b: &SafetyToken)
    requires
        s.token_current(a),
        s.token_current(b),
    ensures
        a.level() == b.level(),
{
}

} // verus!

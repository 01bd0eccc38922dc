//! Peer identities and addresses as plain text.

use vstd::prelude::*;

verus! {

/// The identity of a peer, held in its textual form. Two identities name the
/// same peer exactly when their texts are equal.
#[derive(Debug, PartialEq, Eq)]
pub struct PeerIdentity {
    pub text: String,
}

impl View for PeerIdentity {
    type V = Seq<char>;

    open spec fn view(&self) -> Seq<char> {
        self.text@
    }
}

impl Clone for PeerIdentity {
    fn clone(&self) -> (copy: Self)
        ensures
            copy == *self,
    {
        PeerIdentity { text: self.text.clone() }
    }
}

impl PeerIdentity {
    /// Wraps the textual form of an identity.
    pub fn new(text: &str) -> (peer: Self)
        ensures
            peer@ == text@,
    {
        PeerIdentity { text: text.to_owned() }
    }

    /// The textual form, which is also the name shown for a peer that has
    /// announced no nickname.
    pub fn as_str(&self) -> (text: &str)
        ensures
            text@ == self@,
    {
        self.text.as_str()
    }

    /// Whether `self` and `other` name the same peer.
    pub fn same_peer(&self, other: &PeerIdentity) -> (same: bool)
        ensures
            same == (self@ == other@),
    {
        self.text == other.text
    }
}

/// A network address at which a peer was observed, held in its textual form.
/// The library carries addresses along and never looks inside them.
#[derive(Debug, PartialEq, Eq)]
pub struct PeerAddress {
    pub text: String,
}

impl View for PeerAddress {
    type V = Seq<char>;

    open spec fn view(&self) -> Seq<char> {
        self.text@
    }
}

impl Clone for PeerAddress {
    fn clone(&self) -> (copy: Self)
        ensures
            copy == *self,
    {
        PeerAddress { text: self.text.clone() }
    }
}

impl PeerAddress {
    /// Wraps the textual form of an address.
    pub fn new(text: &str) -> (address: Self)
        ensures
            address@ == text@,
    {
        PeerAddress { text: text.to_owned() }
    }

    /// The textual form.
    pub fn as_str(&self) -> (text: &str)
        ensures
            text@ == self@,
    {
        self.text.as_str()
    }
}

} // verus!

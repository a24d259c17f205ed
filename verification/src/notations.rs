//! The notation declarations of a DTD, taken role by role: the name, the
//! public identifier and the system identifier, reported to the
//! application when it takes notation declarations.
use vstd::prelude::*;
use crate::entities::opt_view;
use crate::hashtable::copy_string;
use crate::text::{normalizePublicId, normalized_public_id};

verus! {

/// The notation declaration being read: its name (kept only when the
/// application takes notation declarations) and its public identifier.
#[allow(non_snake_case)]
pub struct NotationDecl {
    pub declNotationName: Option<Vec<u8>>,
    pub declNotationPublicId: Option<Vec<u8>>,
}

/// A notation declaration as reported: its name, the base against which
/// its system identifier resolves, the system and public identifiers.
#[allow(non_snake_case)]
pub struct NotationEvent {
    pub notationName: Vec<u8>,
    pub base: Option<Vec<u8>>,
    pub systemId: Option<Vec<u8>>,
    pub publicId: Option<Vec<u8>>,
}

fn copy_opt_slice(v: Option<&[u8]>) -> (r: Option<Vec<u8>>)
    ensures
        opt_view(r) == match v {
            Some(b) => Some(b@),
            None => None::<Seq<u8>>,
        },
{
    match v {
        Some(b) => Some(copy_string(b)),
        None => None,
    }
}

impl NotationDecl {
    /// No notation being declared.
    pub fn new() -> (d: Self)
        ensures
            d.declNotationName is None,
            d.declNotationPublicId is None,
    {
        NotationDecl { declNotationName: None, declNotationPublicId: None }
    }

    /// The name of the notation being declared, kept when the application
    /// takes notation declarations.
    #[allow(non_snake_case)]
    pub fn roleNotationName(&mut self, name: &[u8], hasHandler: bool)
        ensures
            final(self).declNotationPublicId is None,
            opt_view(final(self).declNotationName) == if hasHandler {
                Some(name@)
            } else {
                None
            },
    {
        self.declNotationPublicId = None;
        self.declNotationName = if hasHandler {
            Some(copy_string(name))
        } else {
            None
        };
    }

    /// The public identifier of the notation, kept normalised when its name
    /// is.
    #[allow(non_snake_case)]
    pub fn roleNotationPublicId(&mut self, publicId: &[u8])
        ensures
            opt_view(final(self).declNotationName) == opt_view(old(self).declNotationName),
            opt_view(final(self).declNotationPublicId) == if old(self).declNotationName is Some {
                Some(normalized_public_id(publicId@))
            } else {
                opt_view(old(self).declNotationPublicId)
            },
    {
        if self.declNotationName.is_some() {
            let mut p = copy_string(publicId);
            normalizePublicId(&mut p);
            self.declNotationPublicId = Some(p);
        }
    }

    /// The notation's system identifier ends the declaration, which is
    /// reported (with the base `curBase`) when its name was kept and the
    /// application takes notation declarations.
    #[allow(non_snake_case)]
    pub fn roleNotationSystemId(&self, systemId: &[u8], curBase: Option<&[u8]>, hasHandler: bool) -> (r: Option<
        NotationEvent,
    >)
        ensures
            match r {
                None => !(hasHandler && self.declNotationName is Some),
                Some(ev) => hasHandler && (self.declNotationName matches Some(n) && {
                    &&& ev.notationName@ == n@
                    &&& opt_view(ev.base) == match curBase {
                        Some(b) => Some(b@),
                        None => None,
                    }
                    &&& opt_view(ev.systemId) == Some(systemId@)
                    &&& opt_view(ev.publicId) == opt_view(self.declNotationPublicId)
                }),
            },
    {
        if !hasHandler {
            return None;
        }
        match &self.declNotationName {
            None => None,
            Some(n) => Some(
                NotationEvent {
                    notationName: copy_string(n.as_slice()),
                    base: copy_opt_slice(curBase),
                    systemId: Some(copy_string(systemId)),
                    publicId: match &self.declNotationPublicId {
                        Some(p) => Some(copy_string(p.as_slice())),
                        None => None,
                    },
                },
            ),
        }
    }

    /// The declaration ends without a system identifier: it is reported
    /// when it gave a public identifier (its name then was kept) and the
    /// application takes notation declarations.
    #[allow(non_snake_case)]
    pub fn roleNotationNoSystemId(&self, curBase: Option<&[u8]>, hasHandler: bool) -> (r: Option<NotationEvent>)
        ensures
            match r {
                None => !(hasHandler && self.declNotationPublicId is Some && self.declNotationName is Some),
                Some(ev) => hasHandler && (self.declNotationPublicId matches Some(p) && {
                    &&& Some(ev.notationName@) == opt_view(self.declNotationName)
                    &&& opt_view(ev.base) == match curBase {
                        Some(b) => Some(b@),
                        None => None,
                    }
                    &&& ev.systemId is None
                    &&& opt_view(ev.publicId) == Some(p@)
                }),
            },
    {
        if !hasHandler {
            return None;
        }
        match (&self.declNotationPublicId, &self.declNotationName) {
            (Some(p), Some(n)) => Some(
                NotationEvent {
                    notationName: copy_string(n.as_slice()),
                    base: copy_opt_slice(curBase),
                    systemId: None,
                    publicId: Some(copy_string(p.as_slice())),
                },
            ),
            _ => None,
        }
    }
}

} // verus!

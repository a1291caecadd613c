use vstd::prelude::*;
use crate::text::{append_bytes, copy_range};

verus! {

/// A structure representing an APPLICATION block.
#[derive(Clone, Debug, PartialEq, Eq)]
pub struct Application {
    /// Registered application ID.
    pub id: Vec<u8>,
    /// Application data.
    pub data: Vec<u8>,
}

/// The value of an `Application`.
pub ghost struct ApplicationModel {
    pub id: Seq<u8>,
    pub data: Seq<u8>,
}

impl View for Application {
    type V = ApplicationModel;

    open spec fn view(&self) -> ApplicationModel {
        ApplicationModel { id: self.id@, data: self.data@ }
    }
}

/// The encoded form of an APPLICATION block.
pub open spec fn application_bytes(m: ApplicationModel) -> Seq<u8> {
    m.id + m.data
}

/// The APPLICATION block held in `b`: a four-byte identifier, then its data.
pub open spec fn application_of(b: Seq<u8>) -> ApplicationModel {
    ApplicationModel { id: b.subrange(0, 4), data: b.subrange(4, b.len() as int) }
}

/// Decoding the encoded form of an APPLICATION block with a four-byte identifier gives it back.
pub proof fn lemma_application_round_trip(m: ApplicationModel)
    requires
        m.id.len() == 4,
    ensures
        application_of(application_bytes(m)) == m,
{
    let b = application_bytes(m);
    assert(b.subrange(0, 4) =~= m.id);
    assert(b.subrange(4, b.len() as int) =~= m.data);
}

impl Application {
    /// Returns a new `Application` with a zero id and no data.
    pub fn new() -> (r: Application)
        ensures
            r@ == (ApplicationModel { id: Seq::empty(), data: Seq::empty() }),
    {
        Application { id: Vec::new(), data: Vec::new() }
    }

    /// Parses the bytes as an application block.
    pub fn from_bytes(bytes: &[u8]) -> (r: Application)
        requires
            bytes@.len() >= 4,
        ensures
            r@ == application_of(bytes@),
    {
        Application { id: copy_range(bytes, 0, 4), data: copy_range(bytes, 4, bytes.len()) }
    }

    /// Returns a vector representation of the application block suitable for writing to a file.
    pub fn to_bytes(&self) -> (r: Vec<u8>)
        ensures
            r@ == application_bytes(self@),
    {
        let mut bytes: Vec<u8> = Vec::new();
        append_bytes(&mut bytes, self.id.as_slice());
        append_bytes(&mut bytes, self.data.as_slice());
        bytes
    }
}

impl Default for Application {
    fn default() -> (r: Application)
        ensures
            r@ == (ApplicationModel { id: Seq::empty(), data: Seq::empty() }),
    {
        Application::new()
    }
}

} // verus!

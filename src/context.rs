//! Per-connection state kept across the requests served on one connection.
use vstd::prelude::*;
use crate::message::HeaderField;

verus! {

/// Enabled when the current request has an `Expect: 100-continue` header.
pub const EXPECT: u8 = 0b0001;

/// Enabled when the current request has the CONNECT method.
pub const CONNECT: u8 = 0b0010;

/// Enabled when the connection must close after the current response, for
/// example when part of the request body was left unread.
pub const FORCE_CLOSE: u8 = 0b0100;

/// A set of per-request flags, packed into one byte.
#[derive(Clone, Copy, Debug, PartialEq, Eq, Structural)]
pub struct ContextState(pub u8);

impl ContextState {
    /// Whether every bit of `mask` is set.
    pub open spec fn has(self, mask: u8) -> bool {
        self.0 & mask == mask
    }

    /// The empty set.
    pub fn new() -> (r: Self)
        ensures
            r.0 == 0,
            !r.has(EXPECT),
            !r.has(CONNECT),
            !r.has(FORCE_CLOSE),
    {
        assert((0u8 & 1u8) != 1u8 && (0u8 & 2u8) != 2u8 && (0u8 & 4u8) != 4u8) by (bit_vector);
        ContextState(0)
    }

    /// Adds the bits of `mask`.
    pub fn insert(&mut self, mask: u8)
        ensures
            final(self).0 == old(self).0 | mask,
            final(self).has(mask),
            forall|m: u8| old(self).has(m) ==> #[trigger] final(self).has(m),
            forall|m: u8|
                m & mask == 0 ==> (#[trigger] final(self).has(m) == old(self).has(m)),
    {
        let old_bits = self.0;
        self.0 = self.0 | mask;
        let new_bits = self.0;
        assert(new_bits & mask == mask) by (bit_vector)
            requires
                new_bits == old_bits | mask,
        ;
        assert forall|m: u8| #[trigger] (old_bits & m) == m implies (new_bits & m) == m by {
            assert((old_bits & m) == m ==> (new_bits & m) == m) by (bit_vector)
                requires
                    new_bits == old_bits | mask,
            ;
        }
        assert forall|m: u8|
            #[trigger] (m & mask) == 0 implies ((new_bits & m) == m) == ((old_bits & m) == m) by {
            assert((m & mask) == 0 ==> (((new_bits & m) == m) == ((old_bits & m) == m)))
                by (bit_vector)
                requires
                    new_bits == old_bits | mask,
            ;
        }
    }

    /// Whether every bit of `mask` is set.
    pub fn contains(&self, mask: u8) -> (r: bool)
        ensures
            r == self.has(mask),
    {
        (self.0 & mask) == mask
    }
}

/// What happens to a connection after the current response.
#[derive(Clone, Copy, Debug, PartialEq, Eq, Structural)]
pub enum ConnectionType {
    /// No request has been served yet.
    Init,
    /// Close the connection after the response.
    Close,
    /// Keep the connection open for the next request.
    KeepAlive,
    /// The connection switches to another protocol.
    Upgrade,
}

/// The formatted value of the `Date` header, shared by all connections and
/// refreshed outside this crate.
pub struct Date {
    value: Vec<u8>,
}

impl Date {
    pub closed spec fn view(&self) -> Seq<u8> {
        self.value@
    }

    /// A timestamp holding the given formatted date.
    pub fn new(value: Vec<u8>) -> (r: Self)
        ensures
            r.view() == value@,
    {
        Date { value }
    }

    /// The formatted date.
    pub fn date(&self) -> (r: &[u8])
        ensures
            r@ == self.view(),
    {
        self.value.as_slice()
    }
}

/// State of one connection. It is reset with every new request that is
/// served on a connection that is kept alive.
pub struct Context<'a> {
    state: ContextState,
    ctype: ConnectionType,
    /// Header storage for reuse by the next request; always empty.
    header_cache: Option<Vec<HeaderField>>,
    /// The shared timestamp, read for the `Date` header.
    date: &'a Date,
}

impl<'a> Context<'a> {
    pub closed spec fn flags(&self) -> ContextState {
        self.state
    }

    pub closed spec fn spec_ctype(&self) -> ConnectionType {
        self.ctype
    }

    pub closed spec fn cache(&self) -> Option<Vec<HeaderField>> {
        self.header_cache
    }

    pub closed spec fn date_ref(&self) -> &'a Date {
        self.date
    }

    pub open spec fn expect_flag(&self) -> bool {
        self.flags().has(EXPECT)
    }

    pub open spec fn connect_flag(&self) -> bool {
        self.flags().has(CONNECT)
    }

    pub open spec fn force_close_flag(&self) -> bool {
        self.flags().has(FORCE_CLOSE)
    }

    /// The header cache holds no headers.
    pub open spec fn wf(&self) -> bool {
        match self.cache() {
            Some(v) => v@.len() == 0,
            None => true,
        }
    }

    /// A context for a connection that has served no request yet.
    pub fn new(date: &'a Date) -> (r: Self)
        ensures
            r.spec_ctype() == ConnectionType::Init,
            !r.expect_flag(),
            !r.connect_flag(),
            !r.force_close_flag(),
            r.cache() is None,
            r.date_ref() == date,
            r.wf(),
    {
        Context { state: ContextState::new(), ctype: ConnectionType::Init, header_cache: None, date }
    }

    pub fn is_expect_header(&self) -> (r: bool)
        ensures
            r == self.expect_flag(),
    {
        self.state.contains(EXPECT)
    }

    pub fn is_connect_method(&self) -> (r: bool)
        ensures
            r == self.connect_flag(),
    {
        self.state.contains(CONNECT)
    }

    pub fn is_force_close(&self) -> (r: bool)
        ensures
            r == self.force_close_flag(),
    {
        self.state.contains(FORCE_CLOSE)
    }

    /// Starts a new request cycle on a kept-alive connection: the connection
    /// type becomes keep-alive and every flag is cleared.
    pub fn reset(&mut self)
        ensures
            final(self).spec_ctype() == ConnectionType::KeepAlive,
            !final(self).expect_flag(),
            !final(self).connect_flag(),
            !final(self).force_close_flag(),
            final(self).cache() == old(self).cache(),
            final(self).date_ref() == old(self).date_ref(),
    {
        self.ctype = ConnectionType::KeepAlive;
        self.state = ContextState::new();
    }

    pub fn set_expect_header(&mut self)
        ensures
            final(self).expect_flag(),
            final(self).connect_flag() == old(self).connect_flag(),
            final(self).force_close_flag() == old(self).force_close_flag(),
            final(self).spec_ctype() == old(self).spec_ctype(),
            final(self).cache() == old(self).cache(),
            final(self).date_ref() == old(self).date_ref(),
    {
        self.state.insert(EXPECT);
        assert((2u8 & 1u8) == 0 && (4u8 & 1u8) == 0) by (bit_vector);
    }

    pub fn set_connect_method(&mut self)
        ensures
            final(self).connect_flag(),
            final(self).expect_flag() == old(self).expect_flag(),
            final(self).force_close_flag() == old(self).force_close_flag(),
            final(self).spec_ctype() == old(self).spec_ctype(),
            final(self).cache() == old(self).cache(),
            final(self).date_ref() == old(self).date_ref(),
    {
        self.state.insert(CONNECT);
        assert((1u8 & 2u8) == 0 && (4u8 & 2u8) == 0) by (bit_vector);
    }

    pub fn set_force_close(&mut self)
        ensures
            final(self).force_close_flag(),
            final(self).expect_flag() == old(self).expect_flag(),
            final(self).connect_flag() == old(self).connect_flag(),
            final(self).spec_ctype() == old(self).spec_ctype(),
            final(self).cache() == old(self).cache(),
            final(self).date_ref() == old(self).date_ref(),
    {
        self.state.insert(FORCE_CLOSE);
        assert((1u8 & 4u8) == 0 && (2u8 & 4u8) == 0) by (bit_vector);
    }

    pub fn set_ctype(&mut self, ctype: ConnectionType)
        ensures
            final(self).spec_ctype() == ctype,
            final(self).flags() == old(self).flags(),
            final(self).cache() == old(self).cache(),
            final(self).date_ref() == old(self).date_ref(),
    {
        self.ctype = ctype;
    }

    /// The shared timestamp.
    pub fn date(&self) -> (r: &'a Date)
        ensures
            r == self.date_ref(),
    {
        self.date
    }

    /// Takes the cached header storage, leaving none.
    pub fn take_header_cache(&mut self) -> (r: Option<Vec<HeaderField>>)
        ensures
            r == old(self).cache(),
            final(self).cache() is None,
            final(self).flags() == old(self).flags(),
            final(self).spec_ctype() == old(self).spec_ctype(),
            final(self).date_ref() == old(self).date_ref(),
    {
        self.header_cache.take()
    }

    /// Stores emptied header storage for the next request.
    pub fn set_header_cache(&mut self, headers: Vec<HeaderField>)
        requires
            headers@.len() == 0,
        ensures
            final(self).cache() == Some(headers),
            final(self).flags() == old(self).flags(),
            final(self).spec_ctype() == old(self).spec_ctype(),
            final(self).date_ref() == old(self).date_ref(),
            final(self).wf(),
    {
        self.header_cache = Some(headers);
    }

    pub fn ctype(&self) -> (r: ConnectionType)
        ensures
            r == self.spec_ctype(),
    {
        self.ctype
    }
}

} // verus!

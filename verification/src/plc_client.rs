//! The bookkeeping of a PLC client: the symbol handles it has obtained, the
//! notifications it has added, and what it asks of the device. The requests
//! themselves go through the connection type `C`, which the caller drives.
use crate::low::errors::Error;
use crate::low::requests::{NotificationAttributes, TransmissionMode};
use crate::netid::AmsAddr;
use crate::ordmap::{entries_view, find_key, insert_entry, lemma_key_index, seq_get, seq_insert};
use crate::protocol::AdsState;
use crate::symbol::info::SymbolTypeTreeError;
use vstd::prelude::*;

verus! {

/// Why a PLC client request failed.
#[derive(Debug, Clone, PartialEq, Eq)]
pub enum PlcClientError {
    /// The ADS request failed.
    Ads(Error),
    /// No type tree could be built for the symbol.
    SymbolTypeTree(SymbolTypeTreeError),
}

/// A handle the PLC gave for a symbol name.
#[derive(Debug, Copy, Clone, PartialEq, Eq, Structural)]
pub struct SymbolHandle(u32);

impl SymbolHandle {
    /// The handle as the PLC numbers it.
    pub fn as_u32(&self) -> (r: u32)
        ensures
            r == self@,
    {
        self.0
    }
}

/// A handle the PLC gave for a notification.
#[derive(Debug, Copy, Clone, PartialEq, Eq, Structural)]
pub struct NotificationHandle(u32);

impl View for NotificationHandle {
    type V = u32;

    closed spec fn view(&self) -> u32 {
        self.0
    }
}

impl NotificationHandle {
    /// The handle as the PLC numbers it.
    pub fn as_u32(&self) -> (r: u32)
        ensures
            r == self@,
    {
        self.0
    }
}

impl View for SymbolHandle {
    type V = u32;

    closed spec fn view(&self) -> u32 {
        self.0
    }
}

/// Symbol handles by symbol name, in the order they were obtained.
#[derive(Debug)]
pub struct HandleCache {
    handles: Vec<(String, SymbolHandle)>,
}

impl View for HandleCache {
    type V = Seq<(Seq<char>, u32)>;

    closed spec fn view(&self) -> Seq<(Seq<char>, u32)> {
        entries_view(self.handles@)
    }
}

impl HandleCache {
    /// An empty cache.
    pub fn new() -> (r: Self)
        ensures
            r@ == Seq::<(Seq<char>, u32)>::empty(),
    {
        let r = HandleCache { handles: Vec::new() };
        assert(r@ =~= Seq::<(Seq<char>, u32)>::empty());
        r
    }

    /// The handle cached for `symbol`, if there is one.
    pub fn get(&self, symbol: &str) -> (r: Option<SymbolHandle>)
        ensures
            match seq_get(self@, symbol@) {
                Some(h) => r matches Some(x) && x@ == h,
                None => r is None,
            },
    {
        match find_key(&self.handles, symbol) {
            Some(i) => {
                proof {
                    lemma_key_index(self@, symbol@, i as int);
                }
                Some(self.handles[i].1)
            },
            None => None,
        }
    }

    /// Caches the handle `raw` for `symbol`, replacing an earlier one.
    pub fn insert(&mut self, symbol: String, raw: u32) -> (r: SymbolHandle)
        ensures
            r@ == raw,
            final(self)@ == seq_insert(old(self)@, symbol@, raw),
    {
        let handle = SymbolHandle(raw);
        insert_entry(&mut self.handles, symbol, handle);
        handle
    }

    /// Forgets every handle.
    pub fn clear(&mut self)
        ensures
            final(self)@ == Seq::<(Seq<char>, u32)>::empty(),
    {
        self.handles.clear();
        assert(self@ =~= Seq::<(Seq<char>, u32)>::empty());
    }
}

/// The notification attributes the client subscribes with: `length` bytes,
/// sent when they change, without delay, checked every 10 ms (the PLC's
/// cycle).
pub open spec fn subscription_attributes_spec(length: usize) -> NotificationAttributes {
    NotificationAttributes {
        length,
        trans_mode: TransmissionMode::ServerOnChange,
        max_delay_ms: 0,
        cycle_time_ms: 10,
    }
}

/// The notification attributes for a subscription to `length` bytes.
pub fn subscription_attributes(length: usize) -> (r: NotificationAttributes)
    ensures
        r == subscription_attributes_spec(length),
{
    NotificationAttributes::new(length, TransmissionMode::ServerOnChange, 0, 10)
}

/// A client for one PLC: the connection, the PLC's address, and what the
/// client has obtained from it.
#[derive(Debug)]
pub struct PlcClient<C> {
    ads_client: C,
    plc_ams_address: AmsAddr,
    symbol_handles: HandleCache,
    notification_handles: Vec<NotificationHandle>,
}

impl<C> PlcClient<C> {
    /// The symbol handles obtained so far.
    pub closed spec fn symbol_handles_spec(self) -> Seq<(Seq<char>, u32)> {
        self.symbol_handles@
    }

    /// The notifications added so far, in order.
    pub closed spec fn notifications_spec(self) -> Seq<u32> {
        self.notification_handles@.map_values(|h: NotificationHandle| h@)
    }

    /// The PLC's address.
    pub closed spec fn address_spec(self) -> AmsAddr {
        self.plc_ams_address
    }

    /// The connection.
    pub closed spec fn client_spec(self) -> C {
        self.ads_client
    }

    /// A client for the PLC at `plc_ams_address` over `ads_client`, with no
    /// handles yet.
    pub fn new(ads_client: C, plc_ams_address: AmsAddr) -> (r: Self)
        ensures
            r.client_spec() == ads_client,
            r.address_spec() == plc_ams_address,
            r.symbol_handles_spec() == Seq::<(Seq<char>, u32)>::empty(),
            r.notifications_spec() == Seq::<u32>::empty(),
    {
        let r = PlcClient {
            ads_client,
            plc_ams_address,
            symbol_handles: HandleCache::new(),
            notification_handles: Vec::new(),
        };
        assert(r.notifications_spec() =~= Seq::<u32>::empty());
        r
    }

    /// The connection.
    pub fn ads_client(&self) -> (r: &C)
        ensures
            *r == self.client_spec(),
    {
        &self.ads_client
    }

    /// The PLC's address.
    pub fn plc_ams_address(&self) -> (r: AmsAddr)
        ensures
            r == self.address_spec(),
    {
        self.plc_ams_address
    }

    /// The handle already obtained for `symbol`; `None` means it must be
    /// requested from the PLC.
    pub fn cached_symbol_handle(&self, symbol: &str) -> (r: Option<SymbolHandle>)
        ensures
            match seq_get(self.symbol_handles_spec(), symbol@) {
                Some(h) => r matches Some(x) && x@ == h,
                None => r is None,
            },
    {
        self.symbol_handles.get(symbol)
    }

    /// Records the handle the PLC gave for `symbol`.
    pub fn remember_symbol_handle(&mut self, symbol: String, raw: u32) -> (r: SymbolHandle)
        ensures
            r@ == raw,
            final(self).symbol_handles_spec() == seq_insert(
                old(self).symbol_handles_spec(),
                symbol@,
                raw,
            ),
            final(self).notifications_spec() == old(self).notifications_spec(),
            final(self).address_spec() == old(self).address_spec(),
            final(self).client_spec() == old(self).client_spec(),
    {
        self.symbol_handles.insert(symbol, raw)
    }

    /// Whether a device in `state` is in run mode.
    pub fn is_run_mode(state: AdsState) -> (r: bool)
        ensures
            r == (state == AdsState::Run),
    {
        match state {
            AdsState::Run => true,
            _ => false,
        }
    }

    /// The write-control request that puts a device in `state` (with device
    /// state `dev_state`) into run mode; `None` when it already runs.
    pub fn run_mode_request(state: AdsState, dev_state: u16) -> (r: Option<(AdsState, u16)>)
        ensures
            r == (if state == AdsState::Run {
                None
            } else {
                Some((AdsState::Run, dev_state))
            }),
    {
        if Self::is_run_mode(state) {
            None
        } else {
            Some((AdsState::Run, dev_state))
        }
    }

    /// Records a notification the PLC added.
    pub fn record_notification(&mut self, raw: u32) -> (r: NotificationHandle)
        ensures
            r@ == raw,
            final(self).notifications_spec() == old(self).notifications_spec().push(raw),
            final(self).symbol_handles_spec() == old(self).symbol_handles_spec(),
            final(self).address_spec() == old(self).address_spec(),
            final(self).client_spec() == old(self).client_spec(),
    {
        let handle = NotificationHandle(raw);
        self.notification_handles.push(handle);
        assert(self.notifications_spec() =~= old(self).notifications_spec().push(raw));
        handle
    }

    /// Forgets every notification, giving back their handles in the order
    /// they were added so that each can be deleted on the PLC.
    pub fn unsubscribe_all(&mut self) -> (r: Vec<u32>)
        ensures
            r@ == old(self).notifications_spec(),
            final(self).notifications_spec() == Seq::<u32>::empty(),
            final(self).symbol_handles_spec() == old(self).symbol_handles_spec(),
            final(self).address_spec() == old(self).address_spec(),
            final(self).client_spec() == old(self).client_spec(),
    {
        let mut out: Vec<u32> = Vec::new();
        let mut i: usize = 0;
        while i < self.notification_handles.len()
            invariant
                i <= self.notification_handles@.len(),
                self.notification_handles@ == old(self).notification_handles@,
                out@ == old(self).notifications_spec().take(i as int),
            decreases self.notification_handles@.len() - i,
        {
            out.push(self.notification_handles[i].as_u32());
            assert(old(self).notifications_spec().take(i + 1) =~= old(self).notifications_spec().take(
                i as int,
            ).push(old(self).notification_handles@[i as int]@));
            i = i + 1;
        }
        assert(old(self).notifications_spec().take(i as int) =~= old(self).notifications_spec());
        self.notification_handles.clear();
        assert(self.notifications_spec() =~= Seq::<u32>::empty());
        out
    }
}


/// A handle remembered for a symbol is the one found for it afterwards, and
/// the handles of other symbols stay as they were.
pub proof fn lemma_remembered_handle(cache: Seq<(Seq<char>, u32)>, symbol: Seq<char>, raw: u32, other: Seq<char>)
    ensures
        seq_get(seq_insert(cache, symbol, raw), symbol) == Some(raw),
        other != symbol ==> seq_get(seq_insert(cache, symbol, raw), other) == seq_get(cache, other),
{
    crate::ordmap::lemma_get_insert(cache, symbol, raw, other);
}

} // verus!

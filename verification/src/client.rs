//! A client of one PLC over an established connection `C`, with the symbol
//! handles it has obtained.
use crate::ordmap::{seq_get, seq_insert};
use crate::plc_client::{HandleCache, SymbolHandle};
use vstd::prelude::*;

verus! {

/// A client over the connection `C`, remembering symbol handles by name.
#[derive(Debug)]
pub struct AdsClient<C> {
    core_client: C,
    symbol_handles: HandleCache,
}

impl<C> AdsClient<C> {
    /// The connection.
    pub closed spec fn core_spec(self) -> C {
        self.core_client
    }

    /// The symbol handles obtained so far.
    pub closed spec fn handles_spec(self) -> Seq<(Seq<char>, u32)> {
        self.symbol_handles@
    }

    /// A client over `core_client` with no handles yet.
    pub fn new(core_client: C) -> (r: Self)
        ensures
            r.core_spec() == core_client,
            r.handles_spec() == Seq::<(Seq<char>, u32)>::empty(),
    {
        AdsClient { core_client, symbol_handles: HandleCache::new() }
    }

    /// The connection.
    pub fn core_client(&self) -> (r: &C)
        ensures
            *r == self.core_spec(),
    {
        &self.core_client
    }

    /// The handle already obtained for `symbol`; `None` means it must be
    /// requested from the PLC.
    pub fn cached_symbol_handle(&self, symbol: &str) -> (r: Option<SymbolHandle>)
        ensures
            match seq_get(self.handles_spec(), symbol@) {
                Some(h) => r matches Some(x) && x@ == h,
                None => r is None,
            },
    {
        self.symbol_handles.get(symbol)
    }

    /// Records the handle the PLC gave for `symbol`.
    pub fn remember_symbol_handle(&mut self, symbol: String, raw: u32) -> (r: SymbolHandle)
        ensures
            r@ == raw,
            final(self).handles_spec() == seq_insert(old(self).handles_spec(), symbol@, raw),
            final(self).core_spec() == old(self).core_spec(),
    {
        self.symbol_handles.insert(symbol, raw)
    }
}

} // verus!

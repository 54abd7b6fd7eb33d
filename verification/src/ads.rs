//! The high-level client's settings and decisions: how it is configured,
//! what it does after connecting, and when a failed request drops the
//! connection.
use crate::low::client::{local_router, Timeouts};
use crate::low::errors::Error;
use crate::netid::AmsAddr;
use std::sync::Arc;
use vstd::prelude::*;

verus! {

/// Collects the settings of an ADS client.
#[derive(Debug, Clone)]
pub struct AdsBuilder<RouterAddr> {
    router: RouterAddr,
    target: AmsAddr,
    source: Option<AmsAddr>,
    timeouts: Timeouts,
    set_to_run_mode: bool,
}

/// The settings an `AdsBuilder` collected.
pub struct AdsSettings<RouterAddr> {
    pub router: RouterAddr,
    pub target: AmsAddr,
    pub source: Option<AmsAddr>,
    pub timeouts: Timeouts,
    pub set_to_run_mode: bool,
}

impl<RouterAddr> AdsBuilder<RouterAddr> {
    /// The settings collected so far.
    pub closed spec fn settings(self) -> AdsSettings<RouterAddr> {
        AdsSettings {
            router: self.router,
            target: self.target,
            source: self.source,
            timeouts: self.timeouts,
            set_to_run_mode: self.set_to_run_mode,
        }
    }

    /// The builder with another router address.
    pub fn router<NextRouterAddr>(self, router: NextRouterAddr) -> (r: AdsBuilder<NextRouterAddr>)
        ensures
            r.settings().router == router,
            r.settings().target == self.settings().target,
            r.settings().source == self.settings().source,
            r.settings().timeouts == self.settings().timeouts,
            r.settings().set_to_run_mode == self.settings().set_to_run_mode,
    {
        AdsBuilder {
            router,
            target: self.target,
            source: self.source,
            timeouts: self.timeouts,
            set_to_run_mode: self.set_to_run_mode,
        }
    }

    /// The builder with the given source address.
    pub fn source(self, source: AmsAddr) -> (r: Self)
        ensures
            r.settings() == (AdsSettings { source: Some(source), ..self.settings() }),
    {
        AdsBuilder {
            router: self.router,
            target: self.target,
            source: Some(source),
            timeouts: self.timeouts,
            set_to_run_mode: self.set_to_run_mode,
        }
    }

    /// The builder with the given timeouts.
    pub fn timeouts(self, timeouts: Timeouts) -> (r: Self)
        ensures
            r.settings() == (AdsSettings { timeouts, ..self.settings() }),
    {
        AdsBuilder {
            router: self.router,
            target: self.target,
            source: self.source,
            timeouts,
            set_to_run_mode: self.set_to_run_mode,
        }
    }

    /// The settings collected, to build the client with.
    pub fn build(self) -> (r: AdsSettings<RouterAddr>)
        ensures
            r == self.settings(),
    {
        AdsSettings {
            router: self.router,
            target: self.target,
            source: self.source,
            timeouts: self.timeouts,
            set_to_run_mode: self.set_to_run_mode,
        }
    }
}

impl AdsBuilder<()> {
    /// A builder for a client of `target` through the local router
    /// (127.0.0.1, port 48898), with no source address, no timeouts, and
    /// without putting the PLC into run mode.
    pub fn new(target: AmsAddr) -> (r: AdsBuilder<([u8; 4], u16)>)
        ensures
            r.settings().router == local_router(),
            r.settings().target == target,
            r.settings().source is None,
            r.settings().timeouts.connect is None,
            r.settings().timeouts.read is None,
            r.settings().timeouts.write is None,
            !r.settings().set_to_run_mode,
    {
        let r = AdsBuilder {
            router: ([127u8, 0u8, 0u8, 1u8], 48898u16),
            target,
            source: None,
            timeouts: Timeouts::none(),
            set_to_run_mode: false,
        };
        assert(r.router.0 =~= local_router().0);
        r
    }
}

/// What the client does once connected, given whether the PLC runs.
#[derive(Debug, Clone, PartialEq, Eq)]
pub enum RunModeStep {
    /// The PLC runs: the connection is ready.
    Ready,
    /// Put the PLC into run mode.
    SetRunMode,
    /// Give up with this error.
    Fail(Error),
}

/// After connecting: ready if the PLC runs; otherwise put it into run mode
/// if the settings ask for that, else fail.
pub fn after_connect(is_run_mode: bool, set_to_run_mode: bool) -> (r: RunModeStep)
    ensures
        r == (if is_run_mode {
            RunModeStep::Ready
        } else if set_to_run_mode {
            RunModeStep::SetRunMode
        } else {
            RunModeStep::Fail(Error::Other("PLC not in run mode, stopping connection."))
        }),
{
    if !is_run_mode {
        if set_to_run_mode {
            RunModeStep::SetRunMode
        } else {
            RunModeStep::Fail(Error::Other("PLC not in run mode, stopping connection."))
        }
    } else {
        RunModeStep::Ready
    }
}

/// `Arc::clone`: another pointer to the same value.
#[verifier::external_body]
fn arc_clone<T>(a: &Arc<T>) -> (r: Arc<T>)
    ensures
        r == *a,
{
    a.clone()
}

/// The connection to the PLC, if there is one.
#[derive(Debug, Clone, Default)]
pub enum AdsConnection<C> {
    Connected(Arc<C>),
    #[default]
    Disconnected,
}

impl<C> AdsConnection<C> {
    /// The client, if connected.
    pub fn client(&self) -> (r: Option<Arc<C>>)
        ensures
            match *self {
                AdsConnection::Connected(c) => r == Some(c),
                AdsConnection::Disconnected => r is None,
            },
    {
        match self {
            AdsConnection::Connected(client) => Some(arc_clone(client)),
            AdsConnection::Disconnected => None,
        }
    }

    /// Whether there is a connection.
    pub fn is_connected(&self) -> (r: bool)
        ensures
            r == (*self is Connected),
    {
        match self {
            AdsConnection::Connected(_) => true,
            AdsConnection::Disconnected => false,
        }
    }

    /// Whether connecting is needed; an existing connection is kept.
    pub fn needs_connect(&self) -> (r: bool)
        ensures
            r == (*self is Disconnected),
    {
        !self.is_connected()
    }

    /// Takes a new connection; an existing one is kept instead.
    pub fn connected(&mut self, client: C)
        ensures
            *old(self) is Connected ==> *final(self) == *old(self),
            *old(self) is Disconnected ==> *final(self) == AdsConnection::Connected(Arc::new(client)),
    {
        if let AdsConnection::Disconnected = self {
            *self = AdsConnection::Connected(Arc::new(client));
        }
    }

    /// Drops the connection, giving back the client to close, if there was
    /// one.
    pub fn disconnect(&mut self) -> (r: Option<Arc<C>>)
        ensures
            *final(self) is Disconnected,
            match *old(self) {
                AdsConnection::Connected(c) => r == Some(c),
                AdsConnection::Disconnected => r is None,
            },
    {
        let mut old = AdsConnection::Disconnected;
        std::mem::swap(&mut old, self);
        match old {
            AdsConnection::Connected(client) => Some(client),
            AdsConnection::Disconnected => None,
        }
    }
}

/// What a request through the connection needs first: the client, or the
/// error for a missing connection.
pub fn require_client<C>(connection: &AdsConnection<C>) -> (r: Result<Arc<C>, Error>)
    ensures
        match *connection {
            AdsConnection::Connected(c) => r == Ok::<Arc<C>, Error>(c),
            AdsConnection::Disconnected => r == Err::<Arc<C>, Error>(Error::Disconnected),
        },
{
    match connection.client() {
        Some(c) => Ok(c),
        None => Err(Error::Disconnected),
    }
}

} // verus!

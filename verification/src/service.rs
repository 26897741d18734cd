//! Port inventory and worker registry behind the two RPC operations.

use crate::config::Config;
use std::collections::HashMap;
use std::collections::VecDeque;
use vstd::prelude::*;

verus! {

broadcast use vstd::std_specs::hash::group_hash_axioms;

/// Outcome of an RPC operation.
#[derive(Debug, Clone, Copy, PartialEq, Eq, Structural)]
pub enum ResponseCode {
    /// The operation was carried out.
    Success,
    NoPortsFree,
    BindPortError,
    RunStreamServiceError,
}

impl ResponseCode {
    /// The code's name in the RPC schema's spelling.
    pub open spec fn name(self) -> Seq<char> {
        match self {
            ResponseCode::Success => "OK"@,
            ResponseCode::NoPortsFree => "NO_PORTS_FREE"@,
            ResponseCode::BindPortError => "BIND_PORT_ERROR"@,
            ResponseCode::RunStreamServiceError => "RUN_STREAM_SERVICE_ERROR"@,
        }
    }

    /// The code's name as text.
    pub fn as_str_name(&self) -> (name: &'static str)
        ensures
            name@ == self.name(),
    {
        match self {
            ResponseCode::Success => "OK",
            ResponseCode::NoPortsFree => "NO_PORTS_FREE",
            ResponseCode::BindPortError => "BIND_PORT_ERROR",
            ResponseCode::RunStreamServiceError => "RUN_STREAM_SERVICE_ERROR",
        }
    }
}

/// Answer to a request for a stream port.
#[derive(Debug)]
pub struct BindStreamPortResponse {
    pub code: ResponseCode,
    pub message: String,
    pub media_server_ip: String,
    pub media_server_port: u32,
}

/// Answer to a request to release a stream port.
#[derive(Debug)]
pub struct FreeStreamPortResponse {
    pub code: ResponseCode,
    pub message: String,
}

impl BindStreamPortResponse {
    /// The answer holds exactly these four values.
    pub open spec fn is(
        &self,
        code: ResponseCode,
        message: Seq<char>,
        ip: Seq<char>,
        port: u32,
    ) -> bool {
        &&& self.code == code
        &&& self.message@ == message
        &&& self.media_server_ip@ == ip
        &&& self.media_server_port == port
    }
}

impl FreeStreamPortResponse {
    /// The only answer a release gets: `Ok`, without a message.
    pub open spec fn is_ok(&self) -> bool {
        self.code == ResponseCode::Success && self.message@ == Seq::<char>::empty()
    }
}

/// How bind requests are treated beyond the normal path.
#[derive(Debug, Clone, Copy, PartialEq, Eq, Structural)]
pub struct BindPolicy {
    /// Answer every bind request with the fixed media server address and
    /// leave the pool alone.
    pub fixed_media_server: bool,
    /// Put a port back into the pool when its listeners could not be
    /// opened, instead of giving it up.
    pub reuse_port_after_failed_bind: bool,
}

/// Port of the fixed media server.
pub const FIXED_MEDIA_SERVER_PORT: u32 = 10000;

/// Address of the fixed media server.
pub open spec fn fixed_media_server_ip() -> Seq<char> {
    "192.168.31.164"@
}

/// The live ingest worker of a bound port: its cancel signal and the
/// handles of its two sub-tasks.
pub struct StreamTask<C, H> {
    pub cancel_tx: C,
    pub udp_join_handle: H,
    pub tcp_join_handle: H,
}

/// What the service is told while a port is being bound.
pub enum BindEvent<C, H> {
    /// A client asks for a port.
    Request,
    /// The listeners could not be opened on the port that was handed out.
    BindFailed { port: u16, message: String },
    /// The listeners are open, but the worker could not be started.
    RunFailed { message: String },
    /// The worker runs on the port that was handed out.
    Running { port: u16, cancel_tx: C, udp_join_handle: H, tcp_join_handle: H },
}

/// What the service wants done next while a port is being bound.
#[derive(Debug)]
pub enum BindAction {
    /// Open the listeners on `host:port`, start the worker, and report back.
    Bind { host: String, port: u16 },
    /// Send this answer to the client.
    Reply(BindStreamPortResponse),
}

/// What the service is told while a port is being released.
pub enum FreeEvent {
    /// A client asks to release a port.
    Request { media_server_port: u32 },
    /// The worker of `port`, handed out by a `Stop`, was cancelled and both
    /// its sub-tasks have returned.
    Stopped { port: u16 },
}

/// What the service wants done next while a port is being released.
pub enum FreeAction<C, H> {
    /// Fire the cancel signal of `task`, wait for both handles, and report back.
    Stop { port: u16, task: StreamTask<C, H> },
    /// Send this answer to the client.
    Reply(FreeStreamPortResponse),
}

/// The ports from `start` to `stop`, both included, in ascending order.
pub open spec fn port_range(start: u16, stop: u16) -> Seq<u16> {
    Seq::new((stop - start + 1) as nat, |i: int| (start + i) as u16)
}

/// The port that a release request names: the low 16 bits of the number sent.
pub open spec fn requested_port(media_server_port: u32) -> u16 {
    (media_server_port % 65536) as u16
}

/// The broker's state: the free ports in the order in which they will be
/// handed out, and the workers of the bound ports.
pub struct MyGbtStreamService<C, H> {
    config: Config,
    policy: BindPolicy,
    ports: VecDeque<u16>,
    join_handlers: HashMap<u16, StreamTask<C, H>>,
}

impl<C, H> MyGbtStreamService<C, H> {
    /// The free ports, next to be handed out first.
    pub closed spec fn pool(&self) -> Seq<u16> {
        self.ports@
    }

    /// The workers by bound port.
    pub closed spec fn registry(&self) -> Map<u16, StreamTask<C, H>> {
        self.join_handlers@
    }

    /// The policy that the service was made with.
    pub closed spec fn policy(&self) -> BindPolicy {
        self.policy
    }

    /// The configuration that the service was made with.
    pub closed spec fn settings(&self) -> Config {
        self.config
    }

    /// `port` is one of the configured stream ports.
    pub open spec fn in_range(&self, port: u16) -> bool {
        self.settings().stream_port_start <= port <= self.settings().stream_port_stop
    }

    /// `port` is free.
    pub open spec fn in_pool(&self, port: u16) -> bool {
        self.pool().contains(port)
    }

    /// A worker is registered for `port`.
    pub open spec fn in_registry(&self, port: u16) -> bool {
        self.registry().contains_key(port)
    }

    /// A configured port that is neither free nor bound: handed out and not
    /// yet running, being released, or given up after a failed bind.
    pub open spec fn in_transit(&self, port: u16) -> bool {
        self.in_range(port) && !self.in_pool(port) && !self.in_registry(port)
    }

    /// Against `before`, `port` has gone into transit and nothing else has changed there.
    pub open spec fn entered_transit(&self, before: &Self, port: u16) -> bool {
        forall|q: u16| #[trigger] self.in_transit(q) == (before.in_transit(q) || q == port)
    }

    /// Against `before`, `port` has left transit and nothing else has changed there.
    pub open spec fn left_transit(&self, before: &Self, port: u16) -> bool {
        forall|q: u16| #[trigger] self.in_transit(q) == (before.in_transit(q) && q != port)
    }

    /// No port is in transit.
    pub open spec fn settled(&self) -> bool {
        forall|port: u16| !self.in_transit(port)
    }

    /// The range is usable; every free port and every bound port lies in it;
    /// no port is free twice; no port is both free and bound.
    pub open spec fn wf(&self) -> bool {
        &&& self.settings()@.valid()
        &&& self.pool().no_duplicates()
        &&& forall|i: int| 0 <= i < self.pool().len() ==> self.in_range(#[trigger] self.pool()[i])
        &&& forall|port: u16| #[trigger]
            self.in_registry(port) ==> self.in_range(port) && !self.in_pool(port)
    }

    /// A service with every configured port free, in ascending order, and
    /// no port bound. Bind requests take the normal path, and a port whose
    /// bind failed is given up.
    pub fn new(config: Config) -> (s: Self)
        requires
            config@.valid(),
        ensures
            s.wf(),
            s.settled(),
            s.settings() == config,
            s.policy() == (BindPolicy {
                fixed_media_server: false,
                reuse_port_after_failed_bind: false,
            }),
            s.pool() == port_range(config.stream_port_start, config.stream_port_stop),
            s.registry() == Map::<u16, StreamTask<C, H>>::empty(),
    {
        Self::with_policy(
            config,
            BindPolicy { fixed_media_server: false, reuse_port_after_failed_bind: false },
        )
    }

    /// A service with every configured port free, in ascending order, no
    /// port bound, and the given policy.
    pub fn with_policy(config: Config, policy: BindPolicy) -> (s: Self)
        requires
            config@.valid(),
        ensures
            s.wf(),
            s.settled(),
            s.settings() == config,
            s.policy() == policy,
            s.pool() == port_range(config.stream_port_start, config.stream_port_stop),
            s.registry() == Map::<u16, StreamTask<C, H>>::empty(),
    {
        let start = config.stream_port_start;
        let stop = config.stream_port_stop;
        let mut ports: VecDeque<u16> = VecDeque::new();
        let mut next: u32 = start as u32;
        while next <= stop as u32
            invariant
                start <= next <= stop + 1,
                ports@ == Seq::new((next - start) as nat, |i: int| (start + i) as u16),
            decreases stop + 1 - next,
        {
            ports.push_back(next as u16);
            assert(ports@ =~= Seq::new((next + 1 - start) as nat, |i: int| (start + i) as u16));
            next += 1;
        }
        let s = MyGbtStreamService { config, policy, ports, join_handlers: HashMap::new() };
        proof {
            assert(s.pool() =~= port_range(start, stop));
            assert forall|port: u16| !s.in_transit(port) by {
                if s.in_range(port) {
                    assert(s.pool()[port - start] == port);
                }
            }
        }
        s
    }

    /// The configuration that the service was made with.
    pub fn config(&self) -> (c: &Config)
        ensures
            *c == self.settings(),
    {
        &self.config
    }

    /// Whether `port` is free.
    pub fn is_free(&self, port: u16) -> (free: bool)
        ensures
            free == self.in_pool(port),
    {
        let mut i: usize = 0;
        while i < self.ports.len()
            invariant
                i <= self.ports.len(),
                forall|j: int| 0 <= j < i ==> self.ports@[j] != port,
            decreases self.ports.len() - i,
        {
            if self.ports[i] == port {
                return true;
            }
            i += 1;
        }
        false
    }

    /// Whether a worker is registered for `port`.
    pub fn is_bound(&self, port: u16) -> (bound: bool)
        ensures
            bound == self.in_registry(port),
    {
        self.join_handlers.contains_key(&port)
    }

    /// Whether `port` is a configured port that is neither free nor bound.
    pub fn is_in_transit(&self, port: u16) -> (transit: bool)
        ensures
            transit == self.in_transit(port),
    {
        self.config.stream_port_start <= port && port <= self.config.stream_port_stop
            && !self.is_free(port) && !self.is_bound(port)
    }

    /// The number of free ports.
    pub fn free_count(&self) -> (n: usize)
        ensures
            n == self.pool().len(),
    {
        self.ports.len()
    }

    /// Takes the port that has been free longest out of the pool; 0 when
    /// no port is free.
    pub fn pop_port(&mut self) -> (port: u16)
        requires
            old(self).wf(),
        ensures
            final(self).wf(),
            final(self).settings() == old(self).settings(),
            final(self).policy() == old(self).policy(),
            final(self).registry() == old(self).registry(),
            (port == 0) == (old(self).pool().len() == 0),
            old(self).pool().len() == 0 ==> final(self).pool() == old(self).pool(),
            old(self).pool().len() > 0 ==> port == old(self).pool()[0] && final(self).pool()
                == old(self).pool().skip(1) && final(self).entered_transit(old(self), port),
    {
        match self.ports.pop_front() {
            None => {
                proof {
                    assert forall|q: u16| #[trigger] self.in_registry(q) implies self.in_range(q)
                        && !self.in_pool(q) by {
                        assert(old(self).in_registry(q));
                    }
                }
                0
            },
            Some(port) => {
                proof {
                    let before = old(self).pool();
                    let rest = before.skip(1);
                    assert(self.pool() =~= rest);
                    assert(old(self).in_range(before[0]));
                    assert forall|i: int| 0 <= i < rest.len() implies self.in_range(
                        #[trigger] rest[i],
                    ) && rest[i] != port by {
                        assert(rest[i] == before[i + 1]);
                    }
                    assert forall|q: u16| #[trigger] self.in_registry(q) implies self.in_range(q)
                        && !self.in_pool(q) by {
                        assert(old(self).in_registry(q));
                        if rest.contains(q) {
                            let i = choose|i: int| 0 <= i < rest.len() && rest[i] == q;
                            assert(before[i + 1] == q);
                        }
                    }
                    assert(!old(self).in_registry(port));
                    assert forall|i: int, j: int|
                        0 <= i < rest.len() && 0 <= j < rest.len() && i != j implies rest[i]
                        != rest[j] by {
                        assert(rest[i] == before[i + 1] && rest[j] == before[j + 1]);
                    }
                    assert forall|q: u16| #[trigger]
                        self.in_transit(q) == (old(self).in_transit(q) || q == port) by {
                        if before.contains(q) && q != port {
                            let i = choose|i: int| 0 <= i < before.len() && before[i] == q;
                            assert(rest[i - 1] == q);
                        }
                        if rest.contains(q) {
                            let i = choose|i: int| 0 <= i < rest.len() && rest[i] == q;
                            assert(before[i + 1] == q);
                        }
                    }
                }
                port
            },
        }
    }

    /// Puts `port` back at the end of the pool.
    pub fn push_port(&mut self, port: u16)
        requires
            old(self).wf(),
            old(self).in_transit(port),
        ensures
            final(self).wf(),
            final(self).settings() == old(self).settings(),
            final(self).policy() == old(self).policy(),
            final(self).registry() == old(self).registry(),
            final(self).pool() == old(self).pool().push(port),
            final(self).left_transit(old(self), port),
    {
        self.ports.push_back(port);
        proof {
            let before = old(self).pool();
            assert(self.pool()[before.len() as int] == port);
            assert forall|q: u16| #[trigger]
                self.in_transit(q) == (old(self).in_transit(q) && q != port) by {
                if before.contains(q) {
                    let i = choose|i: int| 0 <= i < before.len() && before[i] == q;
                    assert(self.pool()[i] == q);
                }
                if self.pool().contains(q) && q != port {
                    let i = choose|i: int| 0 <= i < self.pool().len() && self.pool()[i] == q;
                    assert(before[i] == q);
                }
            }
            assert forall|q: u16| #[trigger] self.in_registry(q) implies self.in_range(q)
                && !self.in_pool(q) by {
                assert(old(self).in_registry(q));
                if self.pool().contains(q) {
                    let i = choose|i: int| 0 <= i < self.pool().len() && self.pool()[i] == q;
                    if i < before.len() {
                        assert(before[i] == q);
                    }
                }
            }
        }
    }

    /// Registers the worker that runs on `port`.
    pub fn push_task(&mut self, port: u16, cancel_tx: C, udp_join_handle: H, tcp_join_handle: H)
        requires
            old(self).wf(),
            old(self).in_transit(port),
        ensures
            final(self).wf(),
            final(self).settings() == old(self).settings(),
            final(self).policy() == old(self).policy(),
            final(self).pool() == old(self).pool(),
            final(self).registry() == old(self).registry().insert(
                port,
                StreamTask { cancel_tx, udp_join_handle, tcp_join_handle },
            ),
            final(self).left_transit(old(self), port),
    {
        self.join_handlers.insert(port, StreamTask { cancel_tx, udp_join_handle, tcp_join_handle });
        proof {
            assert forall|q: u16| #[trigger] self.in_registry(q) implies self.in_range(q)
                && !self.in_pool(q) by {
                if q != port {
                    assert(old(self).in_registry(q));
                }
            }
        }
    }

    /// Takes the worker of `port` out of the registry, if there is one.
    pub fn pop_task(&mut self, port: u16) -> (task: Option<StreamTask<C, H>>)
        requires
            old(self).wf(),
        ensures
            final(self).wf(),
            final(self).settings() == old(self).settings(),
            final(self).policy() == old(self).policy(),
            final(self).pool() == old(self).pool(),
            final(self).registry() == old(self).registry().remove(port),
            match task {
                Some(t) => old(self).in_registry(port) && old(self).registry()[port] == t
                    && final(self).entered_transit(old(self), port),
                None => !old(self).in_registry(port),
            },
    {
        let task = self.join_handlers.remove(&port);
        proof {
            assert forall|q: u16| #[trigger] self.in_registry(q) implies self.in_range(q)
                && !self.in_pool(q) by {
                assert(old(self).in_registry(q));
            }
            if task.is_some() {
                assert(old(self).in_registry(port));
            }
        }
        task
    }

    /// One step of binding a port.
    ///
    /// On a request the port that has been free longest leaves the pool and
    /// is to be bound on the configured host; with no port free the answer
    /// is `NoPortsFree` and nothing is to be bound. Under the policy
    /// `fixed_media_server` a request is answered at once with the fixed
    /// address and the pool is left alone. A failed bind and a failed start
    /// are answered with their code and the message given; the port stays
    /// out of the pool, unless the bind failed and the policy
    /// `reuse_port_after_failed_bind` puts it back at the end. A running
    /// worker is registered and the client is told the advertised address
    /// and the port.
    pub fn rpc_bind_stream_port(&mut self, event: BindEvent<C, H>) -> (action: BindAction)
        requires
            old(self).wf(),
            event matches BindEvent::Running { port, .. } ==> old(self).in_transit(port),
            event matches BindEvent::BindFailed { port, .. } ==> (old(
                self,
            ).policy().reuse_port_after_failed_bind ==> old(self).in_transit(port)),
        ensures
            final(self).wf(),
            final(self).settings() == old(self).settings(),
            final(self).policy() == old(self).policy(),
            match event {
                BindEvent::Request => {
                    &&& final(self).registry() == old(self).registry()
                    &&& if old(self).policy().fixed_media_server {
                        &&& final(self).pool() == old(self).pool()
                        &&& action matches BindAction::Reply(r) && r.is(
                            ResponseCode::Success,
                            Seq::empty(),
                            fixed_media_server_ip(),
                            FIXED_MEDIA_SERVER_PORT,
                        )
                    } else if old(self).pool().len() == 0 {
                        &&& final(self).pool() == old(self).pool()
                        &&& action matches BindAction::Reply(r) && r.is(
                            ResponseCode::NoPortsFree,
                            ResponseCode::NoPortsFree.name(),
                            Seq::empty(),
                            0,
                        )
                    } else {
                        &&& final(self).pool() == old(self).pool().skip(1)
                        &&& final(self).entered_transit(old(self), old(self).pool()[0])
                        &&& action matches BindAction::Bind { host, port } && host@ == old(
                            self,
                        ).settings().host@ && port == old(self).pool()[0]
                    }
                },
                BindEvent::BindFailed { port, message } => {
                    &&& final(self).registry() == old(self).registry()
                    &&& if old(self).policy().reuse_port_after_failed_bind {
                        &&& final(self).pool() == old(self).pool().push(port)
                        &&& final(self).left_transit(old(self), port)
                    } else {
                        final(self).pool() == old(self).pool()
                    }
                    &&& action matches BindAction::Reply(r) && r.is(
                        ResponseCode::BindPortError,
                        message@,
                        Seq::empty(),
                        0,
                    )
                },
                BindEvent::RunFailed { message } => {
                    &&& final(self).registry() == old(self).registry()
                    &&& final(self).pool() == old(self).pool()
                    &&& action matches BindAction::Reply(r) && r.is(
                        ResponseCode::RunStreamServiceError,
                        message@,
                        Seq::empty(),
                        0,
                    )
                },
                BindEvent::Running { port, cancel_tx, udp_join_handle, tcp_join_handle } => {
                    &&& final(self).registry() == old(self).registry().insert(
                        port,
                        StreamTask { cancel_tx, udp_join_handle, tcp_join_handle },
                    )
                    &&& final(self).pool() == old(self).pool()
                    &&& final(self).left_transit(old(self), port)
                    &&& action matches BindAction::Reply(r) && r.is(
                        ResponseCode::Success,
                        Seq::empty(),
                        old(self).settings().my_ip@,
                        port as u32,
                    )
                },
            },
    {
        match event {
            BindEvent::Request => {
                if self.policy.fixed_media_server {
                    return BindAction::Reply(
                        BindStreamPortResponse {
                            code: ResponseCode::Success,
                            message: String::new(),
                            media_server_ip: "192.168.31.164".to_owned(),
                            media_server_port: FIXED_MEDIA_SERVER_PORT,
                        },
                    );
                }
                let port = self.pop_port();
                if port == 0 {
                    BindAction::Reply(
                        BindStreamPortResponse {
                            code: ResponseCode::NoPortsFree,
                            message: ResponseCode::NoPortsFree.as_str_name().to_owned(),
                            media_server_ip: String::new(),
                            media_server_port: 0,
                        },
                    )
                } else {
                    BindAction::Bind { host: self.config.host.clone(), port }
                }
            },
            BindEvent::BindFailed { port, message } => {
                if self.policy.reuse_port_after_failed_bind {
                    self.push_port(port);
                }
                BindAction::Reply(
                    BindStreamPortResponse {
                        code: ResponseCode::BindPortError,
                        message,
                        media_server_ip: String::new(),
                        media_server_port: 0,
                    },
                )
            },
            BindEvent::RunFailed { message } => BindAction::Reply(
                BindStreamPortResponse {
                    code: ResponseCode::RunStreamServiceError,
                    message,
                    media_server_ip: String::new(),
                    media_server_port: 0,
                },
            ),
            BindEvent::Running { port, cancel_tx, udp_join_handle, tcp_join_handle } => {
                self.push_task(port, cancel_tx, udp_join_handle, tcp_join_handle);
                BindAction::Reply(
                    BindStreamPortResponse {
                        code: ResponseCode::Success,
                        message: String::new(),
                        media_server_ip: self.config.my_ip.clone(),
                        media_server_port: port as u32,
                    },
                )
            },
        }
    }

    /// One step of releasing a port.
    ///
    /// A request for a bound port takes its worker out of the registry and
    /// hands it over to be stopped; a request for any other port changes
    /// nothing and is answered `Ok`. Once the worker has stopped, the port
    /// goes to the end of the pool and the client is answered `Ok`.
    pub fn rpc_free_stream_port(&mut self, event: FreeEvent) -> (action: FreeAction<C, H>)
        requires
            old(self).wf(),
            event matches FreeEvent::Stopped { port } ==> old(self).in_transit(port),
        ensures
            final(self).wf(),
            final(self).settings() == old(self).settings(),
            final(self).policy() == old(self).policy(),
            match event {
                FreeEvent::Request { media_server_port } => {
                    let port = requested_port(media_server_port);
                    &&& final(self).pool() == old(self).pool()
                    &&& final(self).registry() == old(self).registry().remove(port)
                    &&& if old(self).in_registry(port) {
                        &&& final(self).entered_transit(old(self), port)
                        &&& action == (FreeAction::Stop {
                            port,
                            task: old(self).registry()[port],
                        })
                    } else {
                        &&& final(self).registry() == old(self).registry()
                        &&& action matches FreeAction::Reply(r) && r.is_ok()
                    }
                },
                FreeEvent::Stopped { port } => {
                    &&& final(self).pool() == old(self).pool().push(port)
                    &&& final(self).registry() == old(self).registry()
                    &&& final(self).left_transit(old(self), port)
                    &&& action matches FreeAction::Reply(r) && r.is_ok()
                },
            },
    {
        match event {
            FreeEvent::Request { media_server_port } => {
                let port = (media_server_port % 65536) as u16;
                match self.pop_task(port) {
                    Some(task) => FreeAction::Stop { port, task },
                    None => {
                        assert(self.registry() =~= old(self).registry());
                        FreeAction::Reply(
                            FreeStreamPortResponse {
                                code: ResponseCode::Success,
                                message: String::new(),
                            },
                        )
                    },
                }
            },
            FreeEvent::Stopped { port } => {
                self.push_port(port);
                FreeAction::Reply(
                    FreeStreamPortResponse { code: ResponseCode::Success, message: String::new() },
                )
            },
        }
    }

    /// A port that goes into transit and leaves it again gives back a
    /// settled service.
    pub proof fn lemma_round_trip_settles(a: &Self, b: &Self, c: &Self, port: u16)
        requires
            a.settled(),
            b.entered_transit(a, port),
            c.left_transit(b, port),
        ensures
            c.settled(),
    {
        assert forall|q: u16| !c.in_transit(q) by {
            assert(c.in_transit(q) == (b.in_transit(q) && q != port));
            assert(b.in_transit(q) == (a.in_transit(q) || q == port));
        }
    }

    /// While no port is in transit, every configured port is either free or
    /// bound, and never both.
    pub proof fn lemma_free_xor_bound(&self, port: u16)
        requires
            self.wf(),
        ensures
            !(self.in_pool(port) && self.in_registry(port)),
            self.settled() && self.in_range(port) ==> (self.in_pool(port) != self.in_registry(
                port,
            )),
    {
        if self.settled() {
            assert(!self.in_transit(port));
        }
    }
}

/// A port put back into the pool is handed out again after exactly the
/// ports that were free before it, in their order: once as many ports have
/// been taken as were free, it is the next.
pub proof fn lemma_freed_port_comes_back(pool: Seq<u16>, port: u16, taken: int)
    requires
        0 <= taken <= pool.len(),
    ensures
        pool.push(port).skip(taken) == pool.skip(taken).push(port),
        pool.push(port).skip(pool.len() as int) == seq![port],
        pool.push(port).skip(pool.len() as int)[0] == port,
{
    assert(pool.push(port).skip(taken) =~= pool.skip(taken).push(port));
    assert(pool.push(port).skip(pool.len() as int) =~= seq![port]);
}

} // verus!

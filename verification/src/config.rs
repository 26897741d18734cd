//! Runtime parameters of the broker, their defaults and their validation.

use vstd::prelude::*;

verus! {

/// Mathematical value of a configuration.
pub struct ConfigView {
    pub host: Seq<char>,
    pub my_ip: Seq<char>,
    pub grpc_port: u16,
    pub stream_port_start: u16,
    pub stream_port_stop: u16,
    pub socket_recv_buffer_size: usize,
}

/// Fixed runtime parameters.
#[derive(Debug)]
pub struct Config {
    /// Address that listeners bind to.
    pub host: String,
    /// Address advertised to RPC clients.
    pub my_ip: String,
    pub grpc_port: u16,
    /// First stream port, inclusive.
    pub stream_port_start: u16,
    /// Last stream port, inclusive.
    pub stream_port_stop: u16,
    /// Size in bytes of the UDP receive buffer.
    pub socket_recv_buffer_size: usize,
}

impl View for Config {
    type V = ConfigView;

    open spec fn view(&self) -> ConfigView {
        ConfigView {
            host: self.host@,
            my_ip: self.my_ip@,
            grpc_port: self.grpc_port,
            stream_port_start: self.stream_port_start,
            stream_port_stop: self.stream_port_stop,
            socket_recv_buffer_size: self.socket_recv_buffer_size,
        }
    }
}

/// The bind address used where the file names none.
pub fn default_host() -> (host: String)
    ensures
        host@ == "0.0.0.0"@,
{
    "0.0.0.0".to_owned()
}

/// The advertised address used where the file names none: empty, to be detected.
pub fn default_my_ip() -> (ip: String)
    ensures
        ip@ == Seq::<char>::empty(),
{
    String::new()
}

/// The RPC port used where the file names none.
pub fn default_grpc_port() -> (port: u16)
    ensures
        port == 7080,
{
    7080
}

/// The first stream port used where the file names none.
pub fn default_stream_port_start() -> (port: u16)
    ensures
        port == 10001,
{
    10001
}

/// The last stream port used where the file names none.
pub fn default_stream_port_stop() -> (port: u16)
    ensures
        port == 20000,
{
    20000
}

/// The UDP receive buffer size used where the file names none.
pub fn default_socket_recv_buffer_size() -> (size: usize)
    ensures
        size == 1500,
{
    1500
}

impl ConfigView {
    /// The stream ports form a non-empty range that leaves out port 0,
    /// which stands for "no port".
    pub open spec fn valid(self) -> bool {
        1 <= self.stream_port_start <= self.stream_port_stop
    }

    /// The configuration with the advertised address filled in from
    /// `detected` where none was given.
    pub open spec fn with_detected_ip(self, detected: Option<Seq<char>>) -> ConfigView {
        match detected {
            Some(ip) if self.my_ip.len() == 0 => ConfigView { my_ip: ip, ..self },
            _ => self,
        }
    }
}

impl Default for Config {
    fn default() -> (c: Config)
        ensures
            c@ == (ConfigView {
                host: "0.0.0.0"@,
                my_ip: Seq::<char>::empty(),
                grpc_port: 7080,
                stream_port_start: 10001,
                stream_port_stop: 20000,
                socket_recv_buffer_size: 1500,
            }),
            c@.valid(),
    {
        Config {
            host: default_host(),
            my_ip: default_my_ip(),
            grpc_port: default_grpc_port(),
            stream_port_start: default_stream_port_start(),
            stream_port_stop: default_stream_port_stop(),
            socket_recv_buffer_size: default_socket_recv_buffer_size(),
        }
    }
}

impl Config {
    /// Whether the stream port range is usable.
    pub fn is_valid(&self) -> (ok: bool)
        ensures
            ok == self@.valid(),
    {
        1 <= self.stream_port_start && self.stream_port_start <= self.stream_port_stop
    }

    /// Fills in the advertised address: where `my_ip` is empty and an
    /// address was detected, that address is taken; otherwise nothing changes.
    pub fn resolve_my_ip(self, detected: Option<String>) -> (c: Config)
        ensures
            c@ == self@.with_detected_ip(
                match detected {
                    Some(ip) => Some(ip@),
                    None => None,
                },
            ),
    {
        let mut c = self;
        if c.my_ip.as_str().is_empty() {
            if let Some(ip) = detected {
                c.my_ip = ip;
            }
        }
        c
    }
}

impl Clone for Config {
    fn clone(&self) -> (c: Config)
        ensures
            c@ == self@,
    {
        Config {
            host: self.host.clone(),
            my_ip: self.my_ip.clone(),
            grpc_port: self.grpc_port,
            stream_port_start: self.stream_port_start,
            stream_port_stop: self.stream_port_stop,
            socket_recv_buffer_size: self.socket_recv_buffer_size,
        }
    }
}

} // verus!

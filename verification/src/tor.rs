//! The configuration of the hidden service and what is read from the daemon that runs it.

use crate::text::{
    contains_text, decimal, decimal_text, has_part, opt_str_view, trim, trimmed,
};
use vstd::prelude::*;

verus! {

/// The loopback port on which the daemon takes in connections, or none.
pub open spec fn socks_line(socks_port: Option<u16>) -> Seq<char> {
    match socks_port {
        Some(port) => "SocksPort 127.0.0.1:"@ + decimal_text(port as nat),
        None => "SocksPort 0"@,
    }
}

/// The configuration of a version 3 hidden service that forwards to a loopback port.
pub open spec fn torrc_text(
    tor_dir: Seq<char>,
    hs_dir: Seq<char>,
    port: u16,
    socks_port: Option<u16>,
) -> Seq<char> {
    "DataDirectory "@ + tor_dir + "\nHiddenServiceDir "@ + hs_dir
        + "\nHiddenServiceVersion 3\nHiddenServicePort 80 127.0.0.1:"@ + decimal_text(port as nat)
        + "\n"@ + socks_line(socks_port) + "\nLog notice stdout\n"@
}

/// The configuration of the hidden service.
pub fn torrc_content(tor_dir: &str, hs_dir: &str, port: u16, socks_port: Option<u16>) -> (r: String)
    ensures
        r@ == torrc_text(tor_dir@, hs_dir@, port, socks_port),
{
    let mut out: String = "DataDirectory ".to_owned();
    out.append(tor_dir);
    out.append("\nHiddenServiceDir ");
    out.append(hs_dir);
    out.append("\nHiddenServiceVersion 3\nHiddenServicePort 80 127.0.0.1:");
    let number: String = decimal(port as u64);
    out.append(number.as_str());
    out.append("\n");
    let mut socks: String = match socks_port {
        Some(_) => "SocksPort 127.0.0.1:".to_owned(),
        None => "SocksPort 0".to_owned(),
    };
    if let Some(p) = socks_port {
        let text: String = decimal(p as u64);
        socks.append(text.as_str());
    }
    out.append(socks.as_str());
    out.append("\nLog notice stdout\n");
    out
}

/// Whether a line is the first that reports a finished bootstrap.
pub open spec fn is_announcement(announced: bool, line: Seq<char>) -> bool {
    !announced && has_part(line, "Bootstrapped 100%"@)
}

/// Whether a line of the daemon says that the hidden service is to be announced: the first that
/// reports a finished bootstrap.
pub fn announces(announced: bool, line: &str) -> (r: bool)
    ensures
        r == is_announcement(announced, line@),
{
    !announced && contains_text(line, "Bootstrapped 100%")
}

/// The address of the relay on the hidden service whose hostname file holds `hostname`.
pub fn onion_address(hostname: &str) -> (r: String)
    ensures
        r@ == address_of(hostname@),
{
    let mut out: String = "ws://".to_owned();
    let host: String = trim(hostname);
    out.append(host.as_str());
    out.append("/ws");
    out
}

/// How often the hostname file is looked for once the daemon has started.
pub const HOSTNAME_TRIES: u32 = 30;

/// What follows from a look at the hostname file.
#[derive(Debug, Clone, PartialEq, Eq)]
pub enum HostnameStep {
    /// Announce the address.
    Announce { address: String },
    /// Look again.
    Retry,
    /// Look no more.
    GiveUp,
}

/// The model of a [`HostnameStep`].
pub enum HostnameView {
    Announce { address: Seq<char> },
    Retry,
    GiveUp,
}

impl View for HostnameStep {
    type V = HostnameView;

    open spec fn view(&self) -> HostnameView {
        match *self {
            HostnameStep::Announce { address } => HostnameView::Announce { address: address@ },
            HostnameStep::Retry => HostnameView::Retry,
            HostnameStep::GiveUp => HostnameView::GiveUp,
        }
    }
}

/// The address of the relay on a hidden service.
pub open spec fn address_of(hostname: Seq<char>) -> Seq<char> {
    "ws://"@ + trimmed(hostname) + "/ws"@
}

/// What follows from a look at the hostname file that came after `tries` others.
pub open spec fn hostname_view(tries: u32, hostname: Option<Seq<char>>) -> HostnameView {
    match hostname {
        Some(h) => HostnameView::Announce { address: address_of(h) },
        None => if tries + 1 < HOSTNAME_TRIES {
            HostnameView::Retry
        } else {
            HostnameView::GiveUp
        },
    }
}

/// Decides on a look at the hostname file that came after `tries` others.
pub fn hostname_step(tries: u32, hostname: Option<&str>) -> (r: HostnameStep)
    ensures
        r@ == hostname_view(tries, opt_str_view(hostname)),
{
    match hostname {
        Some(h) => HostnameStep::Announce { address: onion_address(h) },
        None => {
            if tries < HOSTNAME_TRIES - 1 {
                HostnameStep::Retry
            } else {
                HostnameStep::GiveUp
            }
        },
    }
}

} // verus!

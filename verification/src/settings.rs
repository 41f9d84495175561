//! Editing and validating the configuration in the first-run window.
use vstd::prelude::*;
use vstd::string::StringExecFns;
use crate::config::{Config, Peer, Role};
use crate::monitor::{enumerate_for_receiver, enumerate_for_sender, enumeration_for, string_views, Enumeration, Source};
use crate::platform::Os;
use crate::pipeline::{split_dest, split_dest_spec, DestError};
use crate::platform::{first_available, lemma_first_available_none, lemma_first_available_prefix};
use crate::text::{contains_char, trim, trim_string};

verus! {

/// Why the configuration window refuses to save or to add a peer.
#[derive(Debug)]
pub enum ValidateError {
    /// A sender without any peer.
    NoPeers,
    /// The selected peer is not in the list.
    ActivePeerOutOfRange,
    /// A saved peer (its address as typed) has no `host:port` form.
    PeerNotHostPort(String),
    /// A saved peer (its address as typed) has a port that is not a `u16`.
    PeerInvalidPort(String),
    /// The address typed for a new peer is empty or has no `:`.
    AddressNotHostPort,
}

impl ValidateError {
    /// The message the window shows.
    pub fn message(&self) -> (r: String)
        ensures
            r@ == match self {
                ValidateError::NoPeers => "Sender needs at least one peer (add one above)."@,
                ValidateError::ActivePeerOutOfRange => "Active peer index out of range."@,
                ValidateError::PeerNotHostPort(a) => "Peer `"@ + a@ + "` must be host:port"@,
                ValidateError::PeerInvalidPort(a) => "Peer `"@ + a@ + "` has invalid port"@,
                ValidateError::AddressNotHostPort => "Peer must be host:port"@,
            },
    {
        let mut m = String::new();
        match self {
            ValidateError::NoPeers => m.append("Sender needs at least one peer (add one above)."),
            ValidateError::ActivePeerOutOfRange => m.append("Active peer index out of range."),
            ValidateError::PeerNotHostPort(a) => {
                m.append("Peer `");
                m.append(a.as_str());
                m.append("` must be host:port");
            },
            ValidateError::PeerInvalidPort(a) => {
                m.append("Peer `");
                m.append(a.as_str());
                m.append("` has invalid port");
            },
            ValidateError::AddressNotHostPort => m.append("Peer must be host:port"),
        }
        proof {
            assert(m@ =~= match self {
                ValidateError::NoPeers => "Sender needs at least one peer (add one above)."@,
                ValidateError::ActivePeerOutOfRange => "Active peer index out of range."@,
                ValidateError::PeerNotHostPort(a) => "Peer `"@ + a@ + "` must be host:port"@,
                ValidateError::PeerInvalidPort(a) => "Peer `"@ + a@ + "` has invalid port"@,
                ValidateError::AddressNotHostPort => "Peer must be host:port"@,
            });
        }
        m
    }
}

/// For each peer: its trimmed address does not split into host and port.
pub open spec fn bad_peers(peers: Seq<Peer>) -> Seq<bool> {
    peers.map_values(|p: Peer| split_dest_spec(trim(p.address@)) is Err)
}

/// A sender configuration the window accepts: at least one peer, the
/// selection in range, every peer `host:port` with a valid port.
pub open spec fn sender_config_valid(cfg: Config) -> bool {
    &&& cfg.peers@.len() > 0
    &&& cfg.active_peer < cfg.peers@.len()
    &&& first_available(bad_peers(cfg.peers@)) is None
}

/// Check the configuration before it is saved.
pub fn validate(cfg: &Config) -> (r: Result<(), ValidateError>)
    ensures
        r is Ok <==> (cfg.role != Role::Sender || sender_config_valid(*cfg)),
        cfg.role == Role::Sender && cfg.peers@.len() == 0 ==> r matches Err(ValidateError::NoPeers),
        cfg.role == Role::Sender && cfg.peers@.len() > 0 && cfg.active_peer >= cfg.peers@.len() ==> r matches Err(
            ValidateError::ActivePeerOutOfRange,
        ),
        cfg.role == Role::Sender && cfg.peers@.len() > 0 && cfg.active_peer < cfg.peers@.len() ==> match first_available(
            bad_peers(cfg.peers@),
        ) {
            None => r is Ok,
            Some(k) => match split_dest_spec(trim(cfg.peers@[k].address@)) {
                Err(DestError::NotHostPort) => r matches Err(ValidateError::PeerNotHostPort(a)) && a@
                    == cfg.peers@[k].address@,
                _ => r matches Err(ValidateError::PeerInvalidPort(a)) && a@ == cfg.peers@[k].address@,
            },
        },
{
    if cfg.role == Role::Sender {
        if cfg.peers.len() == 0 {
            return Err(ValidateError::NoPeers);
        }
        if cfg.active_peer >= cfg.peers.len() {
            return Err(ValidateError::ActivePeerOutOfRange);
        }
        let ghost bad = bad_peers(cfg.peers@);
        let mut i: usize = 0;
        assert(bad.take(0) =~= Seq::<bool>::empty());
        while i < cfg.peers.len()
            invariant
                i <= cfg.peers@.len(),
                cfg.role == Role::Sender,
                cfg.peers@.len() > 0,
                cfg.active_peer < cfg.peers@.len(),
                bad == bad_peers(cfg.peers@),
                first_available(bad.take(i as int)) is None,
            decreases cfg.peers@.len() - i,
        {
            let p = &cfg.peers[i];
            let t = trim_string(p.address.as_str());
            let split = split_dest(t.as_str());
            proof {
                assert(bad.take(i + 1).drop_last() =~= bad.take(i as int));
                assert(bad[i as int] == split_dest_spec(trim(p.address@)) is Err);
            }
            match split {
                Err(DestError::NotHostPort) => {
                    proof { lemma_first_available_prefix(bad, i as int + 1); }
                    return Err(ValidateError::PeerNotHostPort(p.address.clone()));
                },
                Err(DestError::InvalidPort) => {
                    proof { lemma_first_available_prefix(bad, i as int + 1); }
                    return Err(ValidateError::PeerInvalidPort(p.address.clone()));
                },
                Ok(_) => {},
            }
            i += 1;
        }
        assert(bad.take(i as int) =~= bad);
    }
    Ok(())
}

/// `after` is `before` with a peer labelled `label` at `address` (both
/// trimmed) appended; the first peer becomes the selected one.
pub open spec fn peer_added(before: Config, after: Config, label: Seq<char>, address: Seq<char>) -> bool {
    &&& after.peers@.len() == before.peers@.len() + 1
    &&& after.peers@.take(before.peers@.len() as int) == before.peers@
    &&& after.peers@.last().label@ == trim(label)
    &&& after.peers@.last().address@ == trim(address)
    &&& after.active_peer == if before.peers@.len() == 0 {
        0
    } else {
        before.active_peer
    }
    &&& same_but_peers(before, after)
}

/// `b` is `a` with at most the peers and the selection changed.
pub open spec fn same_but_peers(a: Config, b: Config) -> bool {
    &&& b.role == a.role
    &&& b.quality == a.quality
    &&& b.codec == a.codec
    &&& b.payload_type == a.payload_type
    &&& b.listen_port == a.listen_port
    &&& b.width == a.width
    &&& b.height == a.height
    &&& b.monitor == a.monitor
    &&& b.jitter_ms == a.jitter_ms
    &&& b.idle_timeout_s == a.idle_timeout_s
    &&& b.rcvbuf == a.rcvbuf
}

/// `after` is `before` without peer `i`; a selection that falls off the end
/// of a non-empty list moves to the last peer.
pub open spec fn peer_removed(before: Config, after: Config, i: int) -> bool {
    &&& after.peers@ == before.peers@.remove(i)
    &&& after.active_peer == if before.active_peer >= after.peers@.len() && after.peers@.len() > 0 {
        (after.peers@.len() - 1) as usize
    } else {
        before.active_peer
    }
    &&& same_but_peers(before, after)
}

/// Add the peer typed into the window. The trimmed address must be non-empty
/// and hold a `:`; the label is trimmed too. The first peer becomes the
/// selected one.
pub fn add_peer(cfg: &mut Config, label: &str, address: &str) -> (r: Result<(), ValidateError>)
    ensures
        r is Ok <==> (trim(address@).len() > 0 && trim(address@).contains(':')),
        r is Err ==> (r matches Err(ValidateError::AddressNotHostPort) && *final(cfg) == *old(cfg)),
        r is Ok ==> peer_added(*old(cfg), *final(cfg), label@, address@),
{
    let addr = trim_string(address);
    if addr.as_str().is_empty() || !contains_char(addr.as_str(), ':') {
        return Err(ValidateError::AddressNotHostPort);
    }
    let lab = trim_string(label);
    cfg.peers.push(Peer { label: lab, address: addr });
    if cfg.peers.len() == 1 {
        cfg.active_peer = 0;
    }
    proof {
        assert(final(cfg).peers@.take(old(cfg).peers@.len() as int) =~= old(cfg).peers@);
    }
    Ok(())
}

/// Remove peer `i`; if the selection falls off the end of a non-empty list it
/// moves to the last peer.
pub fn remove_peer(cfg: &mut Config, i: usize)
    requires
        i < old(cfg).peers@.len(),
    ensures
        peer_removed(*old(cfg), *final(cfg), i as int),
        final(cfg).peers@.len() > 0 ==> final(cfg).active_peer < final(cfg).peers@.len(),
{
    cfg.peers.remove(i);
    if cfg.active_peer >= cfg.peers.len() && cfg.peers.len() > 0 {
        cfg.active_peer = cfg.peers.len() - 1;
    }
}


/// Law: a sender configuration the window accepts gives the sender a
/// destination — the selected peer exists and its address splits into a
/// host and a valid port — provided that address carries no surrounding
/// whitespace (the window checks the trimmed address, the sender splits the
/// address as saved).
pub proof fn lemma_valid_sender_has_destination(cfg: Config)
    requires
        cfg.role == Role::Sender,
        sender_config_valid(cfg),
        trim(cfg.peers@[cfg.active_peer as int].address@) == cfg.peers@[cfg.active_peer as int].address@,
    ensures
        cfg.spec_active_peer_address() is Some,
        split_dest_spec(cfg.spec_active_peer_address()->0) is Ok,
{
    lemma_first_available_none(bad_peers(cfg.peers@), cfg.active_peer as int);
}

/// The text a peer is listed under: its label, or its address when the
/// label is empty.
pub fn peer_display_label(p: &Peer) -> (r: &str)
    ensures
        r@ == if p.label@.len() == 0 {
            p.address@
        } else {
            p.label@
        },
{
    if p.label.as_str().is_empty() {
        p.address.as_str()
    } else {
        p.label.as_str()
    }
}

/// The monitors the window offers for a role: the sender's or the
/// receiver's enumeration (`linux`: the Linux probe result).
pub fn monitors_for(role: Role, os: Os, linux: (Source, Vec<String>)) -> (r: Enumeration)
    ensures
        (r.source, string_views(r.names@), r.user_selectable) == enumeration_for(
            os,
            (linux.0, string_views(linux.1@)),
        ),
{
    match role {
        Role::Sender => enumerate_for_sender(os, linux),
        Role::Receiver => enumerate_for_receiver(os, linux),
    }
}

/// What the monitor section of the window shows.
#[derive(Debug, Clone, Copy, PartialEq, Eq, Structural)]
pub enum MonitorView {
    /// Linux sender: the desktop portal asks at share time, so the field
    /// has no effect.
    PortalPicks,
    /// Linux receiver without an enumeration tool: the compositor places the
    /// window.
    NoTools,
    /// Enumeration is not implemented for this platform.
    NotImplemented,
    /// The tool ran but listed no monitor.
    NoneDetected,
    /// The user picks a monitor (or `auto`) from the list.
    Choose,
    /// The list is shown for awareness only.
    Informational,
}

/// The monitor section for an enumeration from `source` that found
/// monitors or not, on `os`, for `role`.
pub open spec fn monitor_view_spec(source: Source, has_names: bool, user_selectable: bool, os: Os, role: Role) -> MonitorView {
    if source == Source::NotFound {
        if os == Os::Linux && role == Role::Sender {
            MonitorView::PortalPicks
        } else if os == Os::Linux && role == Role::Receiver {
            MonitorView::NoTools
        } else {
            MonitorView::NotImplemented
        }
    } else if !has_names {
        MonitorView::NoneDetected
    } else if user_selectable {
        MonitorView::Choose
    } else {
        MonitorView::Informational
    }
}

/// `b` is `a` with at most the monitor changed.
pub open spec fn same_but_monitor(a: Config, b: Config) -> bool {
    &&& b.role == a.role
    &&& b.quality == a.quality
    &&& b.codec == a.codec
    &&& b.payload_type == a.payload_type
    &&& b.peers@ == a.peers@
    &&& b.active_peer == a.active_peer
    &&& b.listen_port == a.listen_port
    &&& b.width == a.width
    &&& b.height == a.height
    &&& b.jitter_ms == a.jitter_ms
    &&& b.idle_timeout_s == a.idle_timeout_s
    &&& b.rcvbuf == a.rcvbuf
}

/// Decide the monitor section and settle the monitor field: unless the user
/// can pick from the list, the monitor is `auto`.
pub fn settle_monitor(cfg: &mut Config, e: &Enumeration, os: Os) -> (r: MonitorView)
    ensures
        r == monitor_view_spec(e.source, e.names@.len() > 0, e.user_selectable, os, old(cfg).role),
        same_but_monitor(*old(cfg), *final(cfg)),
        final(cfg).monitor@ == if r == MonitorView::Choose {
            old(cfg).monitor@
        } else {
            "auto"@
        },
{
    let view = if e.source == Source::NotFound {
        if os == Os::Linux && cfg.role == Role::Sender {
            MonitorView::PortalPicks
        } else if os == Os::Linux && cfg.role == Role::Receiver {
            MonitorView::NoTools
        } else {
            MonitorView::NotImplemented
        }
    } else if e.names.len() == 0 {
        MonitorView::NoneDetected
    } else if e.user_selectable {
        MonitorView::Choose
    } else {
        MonitorView::Informational
    };
    if view != MonitorView::Choose {
        cfg.monitor = "auto".to_owned();
    }
    view
}

/// Law: removing the peer just added gives back the peer list and the
/// selection of before, as long as that selection was in range.
pub proof fn lemma_remove_undoes_add(c0: Config, c1: Config, c2: Config, label: Seq<char>, address: Seq<char>)
    requires
        peer_added(c0, c1, label, address),
        peer_removed(c1, c2, c1.peers@.len() - 1),
        c0.active_peer < c0.peers@.len(),
    ensures
        c2.peers@ == c0.peers@,
        c2.active_peer == c0.active_peer,
        same_but_peers(c0, c2),
{
    assert(c1.peers@.remove(c1.peers@.len() - 1) =~= c1.peers@.take(c0.peers@.len() as int));
}

} // verus!

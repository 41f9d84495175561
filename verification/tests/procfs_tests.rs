use allcast::procfs::{rcvbuf_drops, recv_queue_bytes, recv_queue_in, self_cpu_tick_fields, self_cpu_ticks};
use allcast::stats::SharedStats;

const STAT: &str = "1234 (my (odd) prog) S 1 1234 1234 0 -1 4194560 1000 0 0 0 250 75 0 0 20 0 4 0 100 123456 789\n";

#[test]
fn cpu_ticks_from_stat() {
    assert_eq!(self_cpu_tick_fields(STAT), Some((250, 75)));
    assert_eq!(self_cpu_ticks(STAT), 325);
    assert_eq!(self_cpu_ticks("1 (short) S 1 2 3"), 0);
    assert_eq!(self_cpu_ticks("no parenthesis at all"), 0);
    // A field that is not a number counts as 0.
    assert_eq!(self_cpu_tick_fields("9 (x) S 0 0 0 0 0 0 0 0 0 0 abc 5"), Some((0, 5)));
}

const UDP: &str = "  sl  local_address rem_address   st tx_queue rx_queue tr tm->when retrnsmt   uid  timeout inode ref pointer drops\n\
  12: 00000000:0035 00000000:0000 07 00000000:00000000 00:00000000 00000000     0        0 111 2 0000000000000000 0\n\
  13: 00000000:138c 00000000:0000 07 00000000:00000A00 00:00000000 00000000  1000        0 222 2 0000000000000000 0\n";

const UDP6: &str = "  sl  local_address                         remote_address                        st tx_queue rx_queue tr tm->when retrnsmt   uid  timeout inode ref pointer drops\n\
  40: 00000000000000000000000000000000:1770 00000000000000000000000000000000:0000 07 00000000:00000100 00:00000000 00000000  1000        0 333 2 0000000000000000 0\n";

#[test]
fn recv_queue_from_udp_tables() {
    // Port 5004 is 0x138C; the table writes it in lower case here.
    assert_eq!(recv_queue_in(UDP, 5004), Some(0xA00));
    assert_eq!(recv_queue_in(UDP, 53), Some(0));
    assert_eq!(recv_queue_in(UDP, 6000), None);
    assert_eq!(recv_queue_in(UDP6, 6000), Some(0x100));
    assert_eq!(recv_queue_bytes(Some(UDP), Some(UDP6), 5004), 2560);
    assert_eq!(recv_queue_bytes(Some(UDP), Some(UDP6), 6000), 256);
    assert_eq!(recv_queue_bytes(None, Some(UDP6), 6000), 256);
    assert_eq!(recv_queue_bytes(Some(UDP), None, 6000), 0);
    assert_eq!(recv_queue_bytes(None, None, 5004), 0);
}

#[test]
fn recv_queue_skips_header_and_bad_rows() {
    // The header row is never read as data, even if it would match.
    let t = "x 0:1F90 y z a:10\n  1: 0:1F90 0:0 07 0:zz\n  2: 0:1F90 0:0 07 0:20\n";
    assert_eq!(recv_queue_in(t, 8080), Some(0x20));
}

const SNMP: &str = "Ip: Forwarding DefaultTTL\nIp: 1 64\n\
Udp: InDatagrams NoPorts InErrors OutDatagrams RcvbufErrors SndbufErrors InCsumErrors IgnoredMulti MemErrors\n\
Udp: 100 2 3 50 42 0 0 0 0\n\
UdpLite: InDatagrams NoPorts InErrors OutDatagrams RcvbufErrors\n\
UdpLite: 0 0 0 0 9\n";

#[test]
fn rcvbuf_drops_from_snmp() {
    assert_eq!(rcvbuf_drops(SNMP), 42);
    assert_eq!(rcvbuf_drops("Ip: 1\n"), 0);
    assert_eq!(rcvbuf_drops("Udp: a b c d e\nUdp: 1 2 3\n"), 0);
    assert_eq!(rcvbuf_drops("Udp: a b c d e\nUdp: 1 2 3 4 x\n"), 0);
}

#[test]
fn shared_stats_keep_port_and_cpus() {
    let s = SharedStats::new(5004, 8);
    assert_eq!(s.listen_port(), 5004);
    assert_eq!(s.ncpu(), 8);
    assert!(!s.active.load(std::sync::atomic::Ordering::Relaxed));
    assert_eq!(s.packets.load(std::sync::atomic::Ordering::Relaxed), 0);
}

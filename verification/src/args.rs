//! Command-line and environment value parsing: decimal integers (an optional `+` then ASCII
//! digits, as std's integer `FromStr` accepts them) and the `--ip`/`--port` flag scan.

use vstd::prelude::*;
use crate::text::str_eq;

verus! {

/// Whether `c` is an ASCII decimal digit.
pub open spec fn is_digit(c: char) -> bool {
    '0' <= c && c <= '9'
}

/// The value of a string of decimal digits.
pub open spec fn digits_value(s: Seq<char>) -> int
    decreases s.len(),
{
    if s.len() == 0 {
        0
    } else {
        digits_value(s.drop_last()) * 10 + (s.last() as int - '0' as int)
    }
}

/// The digits of a decimal literal: the text after an optional leading `+`.
pub open spec fn decimal_body(s: Seq<char>) -> Seq<char> {
    if s.len() > 0 && s[0] == '+' {
        s.drop_first()
    } else {
        s
    }
}

/// The value of a decimal literal no greater than `max`: an optional `+` followed by at least
/// one digit and nothing else.
pub open spec fn parse_decimal_spec(s: Seq<char>, max: int) -> Option<int> {
    let body = decimal_body(s);
    if body.len() > 0 && (forall|i: int| 0 <= i < body.len() ==> is_digit(body[i]))
        && digits_value(body) <= max {
        Some(digits_value(body))
    } else {
        None
    }
}

proof fn lemma_digits_value_nonneg(s: Seq<char>)
    requires
        forall|i: int| 0 <= i < s.len() ==> is_digit(s[i]),
    ensures
        digits_value(s) >= 0,
    decreases s.len(),
{
    if s.len() > 0 {
        lemma_digits_value_nonneg(s.drop_last());
    }
}

/// Past `max` the value of a longer digit string stays past `max`.
proof fn lemma_digits_value_grows(s: Seq<char>, k: int)
    requires
        0 <= k <= s.len(),
        forall|i: int| 0 <= i < s.len() ==> is_digit(s[i]),
    ensures
        digits_value(s.subrange(0, k)) <= digits_value(s),
    decreases s.len() - k,
{
    if k < s.len() {
        lemma_digits_value_grows(s, k + 1);
        let t = s.subrange(0, k + 1);
        assert(t.drop_last() =~= s.subrange(0, k));
        lemma_digits_value_nonneg(s.subrange(0, k));
    } else {
        assert(s.subrange(0, k) =~= s);
    }
}

/// Parse a decimal literal into a value no greater than `max`.
pub fn parse_decimal(s: &str, max: u64) -> (r: Option<u64>)
    ensures
        match r {
            Some(v) => parse_decimal_spec(s@, max as int) == Some(v as int),
            None => parse_decimal_spec(s@, max as int) is None,
        },
{
    let n = s.unicode_len();
    let mut start: usize = 0;
    if n > 0 && s.get_char(0) == '+' {
        start = 1;
    }
    let ghost body = decimal_body(s@);
    assert(body =~= s@.subrange(start as int, n as int));
    if start == n {
        return None;
    }
    let mut acc: u64 = 0;
    let mut i: usize = start;
    while i < n
        invariant
            n == s@.len(),
            start <= i <= n,
            body == s@.subrange(start as int, n as int),
            body == decimal_body(s@),
            forall|j: int| 0 <= j < i - start ==> is_digit(body[j]),
            acc as int == digits_value(body.subrange(0, i - start)),
            acc <= max,
        decreases n - i,
    {
        let c = s.get_char(i);
        if !('0' <= c && c <= '9') {
            assert(body[i - start] == c);
            assert(!is_digit(body[(i - start) as int]));
            assert(!(forall|j: int| 0 <= j < body.len() ==> is_digit(body[j])));
            assert(decimal_body(s@) == body);
            assert(parse_decimal_spec(s@, max as int) is None);
            return None;
        }
        let d: u64 = ((c as u32) - ('0' as u32)) as u64;
        let ghost pre = body.subrange(0, i - start);
        let ghost next = body.subrange(0, i + 1 - start);
        assert(next.drop_last() =~= pre);
        assert(next.last() == c);
        assert(d as int == c as int - '0' as int);
        if d > max || acc > (max - d) / 10 {
            proof {
                assert(acc * 10 + d > max) by (nonlinear_arith)
                    requires
                        d > max || acc > (max - d) / 10,
                        acc >= 0,
                        d >= 0,
                ;
                assert forall|j: int| 0 <= j < i + 1 - start implies is_digit(body[j]) by {
                    if j == i - start {
                        assert(body[j] == c);
                    }
                }
                if forall|j: int| 0 <= j < body.len() ==> is_digit(body[j]) {
                    lemma_digits_value_grows(body, i + 1 - start);
                }
            }
            return None;
        }
        proof {
            assert(acc * 10 + d <= max) by (nonlinear_arith)
                requires
                    acc <= (max - d) / 10,
                    d <= max,
                    acc >= 0,
            ;
        }
        acc = acc * 10 + d;
        i = i + 1;
    }
    assert(body.subrange(0, n - start) =~= body);
    Some(acc)
}

/// Parse a `u16` (a port).
pub fn parse_u16(s: &str) -> (r: Option<u16>)
    ensures
        match r {
            Some(v) => parse_decimal_spec(s@, u16::MAX as int) == Some(v as int),
            None => parse_decimal_spec(s@, u16::MAX as int) is None,
        },
{
    match parse_decimal(s, u16::MAX as u64) {
        Some(v) => Some(v as u16),
        None => None,
    }
}

/// Parse a `u8`.
pub fn parse_u8(s: &str) -> (r: Option<u8>)
    ensures
        match r {
            Some(v) => parse_decimal_spec(s@, u8::MAX as int) == Some(v as int),
            None => parse_decimal_spec(s@, u8::MAX as int) is None,
        },
{
    match parse_decimal(s, u8::MAX as u64) {
        Some(v) => Some(v as u8),
        None => None,
    }
}

/// Parse a `u64`.
pub fn parse_u64(s: &str) -> (r: Option<u64>)
    ensures
        match r {
            Some(v) => parse_decimal_spec(s@, u64::MAX as int) == Some(v as int),
            None => parse_decimal_spec(s@, u64::MAX as int) is None,
        },
{
    parse_decimal(s, u64::MAX)
}

/// A problem met while scanning the address flags (reported, then skipped).
#[derive(Clone, Copy, PartialEq, Eq, Structural, Debug)]
pub enum ArgIssue {
    /// The value at this index is not an IP address; the IP kept so far stays.
    BadIp { arg: usize, kept_ip: Option<usize> },
    /// The value at this index is not a port; the port kept so far stays.
    BadPort { arg: usize, kept_port: u16 },
    /// `--ip` was the last argument.
    MissingIp,
    /// `--port` was the last argument.
    MissingPort,
}

/// The scan's outcome: which argument (if any) holds the chosen IP, the chosen port, and the
/// problems met in order.
#[derive(Clone, Debug)]
pub struct AddrArgs {
    pub ip_arg: Option<usize>,
    pub port: u16,
    pub issues: Vec<ArgIssue>,
}

/// The scan from argument `i` on with the IP and port chosen so far: `--ip v` / `--port v`
/// take the following argument as their value (a valid one replaces the current choice, an
/// invalid one is reported and skipped), a trailing flag is reported, anything else is skipped.
pub open spec fn scan_spec(args: Seq<Seq<char>>, ip_ok: Seq<bool>, i: int, ip: Option<usize>, port: u16) -> (Option<usize>, u16, Seq<ArgIssue>)
    decreases args.len() - i,
{
    if i >= args.len() || i < 0 {
        (ip, port, Seq::empty())
    } else if args[i] == "--ip"@ {
        if i + 1 < args.len() {
            if ip_ok[i + 1] {
                scan_spec(args, ip_ok, i + 2, Some((i + 1) as usize), port)
            } else {
                let (a, b, c) = scan_spec(args, ip_ok, i + 2, ip, port);
                (a, b, seq![ArgIssue::BadIp { arg: (i + 1) as usize, kept_ip: ip }] + c)
            }
        } else {
            let (a, b, c) = scan_spec(args, ip_ok, i + 1, ip, port);
            (a, b, seq![ArgIssue::MissingIp] + c)
        }
    } else if args[i] == "--port"@ {
        if i + 1 < args.len() {
            match parse_decimal_spec(args[i + 1], u16::MAX as int) {
                Some(v) => scan_spec(args, ip_ok, i + 2, ip, v as u16),
                None => {
                    let (a, b, c) = scan_spec(args, ip_ok, i + 2, ip, port);
                    (a, b, seq![ArgIssue::BadPort { arg: (i + 1) as usize, kept_port: port }] + c)
                },
            }
        } else {
            let (a, b, c) = scan_spec(args, ip_ok, i + 1, ip, port);
            (a, b, seq![ArgIssue::MissingPort] + c)
        }
    } else {
        scan_spec(args, ip_ok, i + 1, ip, port)
    }
}

/// Scanning from argument `i` keeps the port it started with unless some `--port` at or after
/// `i` is followed by a valid port, and keeps the IP unless some `--ip` at or after `i` is
/// followed by a valid address.
pub proof fn lemma_scan_keeps_unset(args: Seq<Seq<char>>, ip_ok: Seq<bool>, i: int, ip: Option<usize>, port: u16)
    requires
        0 <= i,
    ensures
        (forall|j: int|
            #![trigger args[j]]
            i <= j && j + 1 < args.len() && args[j] == "--port"@ ==> parse_decimal_spec(args[j + 1], u16::MAX as int) is None)
            ==> scan_spec(args, ip_ok, i, ip, port).1 == port,
        (forall|j: int|
            #![trigger args[j]]
            i <= j && j + 1 < args.len() && args[j] == "--ip"@ ==> !ip_ok[j + 1])
            ==> scan_spec(args, ip_ok, i, ip, port).0 == ip,
    decreases args.len() - i,
{
    if i < args.len() {
        lemma_scan_keeps_unset(args, ip_ok, i + 1, ip, port);
        if i + 1 < args.len() {
            lemma_scan_keeps_unset(args, ip_ok, i + 2, ip, port);
            lemma_scan_keeps_unset(args, ip_ok, i + 2, Some((i + 1) as usize), port);
            match parse_decimal_spec(args[i + 1], u16::MAX as int) {
                Some(v) => lemma_scan_keeps_unset(args, ip_ok, i + 2, ip, v as u16),
                None => {},
            }
        }
    }
}

/// The address flags fall back to the defaults: with no `--port` followed by a valid port the
/// resolved port is `default_port`, and with no `--ip` followed by a valid address no IP argument
/// is chosen (the caller keeps its default IP).
pub proof fn lemma_addr_defaults_kept(args: Seq<Seq<char>>, ip_ok: Seq<bool>, default_port: u16)
    ensures
        (forall|j: int|
            #![trigger args[j]]
            1 <= j && j + 1 < args.len() && args[j] == "--port"@ ==> parse_decimal_spec(args[j + 1], u16::MAX as int) is None)
            ==> scan_spec(args, ip_ok, 1, None, default_port).1 == default_port,
        (forall|j: int|
            #![trigger args[j]]
            1 <= j && j + 1 < args.len() && args[j] == "--ip"@ ==> !ip_ok[j + 1])
            ==> scan_spec(args, ip_ok, 1, None, default_port).0 is None,
{
    lemma_scan_keeps_unset(args, ip_ok, 1, None, default_port);
}

/// A valid `--ip` takes effect: when the scan reaches an `--ip` flag at `i` whose next argument
/// is a valid address, and no later `--ip` is followed by a valid address, the chosen IP argument
/// is `i + 1`; the flag and its value raise no issue, and the port and issues are those of the
/// rest of the scan after the pair. In particular a valid `--ip <addr>` pair at the very end leaves no issue.
pub proof fn lemma_valid_ip_flag_is_chosen(args: Seq<Seq<char>>, ip_ok: Seq<bool>, i: int, ip: Option<usize>, port: u16)
    requires
        0 <= i,
        i + 1 < args.len(),
        args.len() <= usize::MAX,
        args[i] == "--ip"@,
        ip_ok[i + 1],
        forall|j: int|
            #![trigger args[j]]
            i + 2 <= j && j + 1 < args.len() && args[j] == "--ip"@ ==> !ip_ok[j + 1],
    ensures
        scan_spec(args, ip_ok, i, ip, port).0 == Some((i + 1) as usize),
        scan_spec(args, ip_ok, i, ip, port).1 == scan_spec(args, ip_ok, i + 2, Some((i + 1) as usize), port).1,
        scan_spec(args, ip_ok, i, ip, port).2 == scan_spec(args, ip_ok, i + 2, Some((i + 1) as usize), port).2,
        i + 2 == args.len() ==> scan_spec(args, ip_ok, i, ip, port) == (Some((i + 1) as usize), port, Seq::<ArgIssue>::empty()),
{
    lemma_scan_keeps_unset(args, ip_ok, i + 2, Some((i + 1) as usize), port);
}

/// Resolve `--ip <addr>` and `--port <num>` from the process arguments (`args[0]` is the program
/// and is skipped). `ip_ok[i]` says whether `args[i]` parses as an IP address. Missing flags keep
/// the defaults (no IP argument, `default_port`); later valid values win over earlier ones.
pub fn resolve_addr_args(args: &Vec<String>, ip_ok: &Vec<bool>, default_port: u16) -> (r: AddrArgs)
    requires
        ip_ok@.len() == args@.len(),
    ensures
        (r.ip_arg, r.port, r.issues@) == scan_spec(
            args@.map_values(|a: String| a@),
            ip_ok@,
            1,
            None,
            default_port,
        ),
{
    let ghost av = args@.map_values(|a: String| a@);
    let mut ip: Option<usize> = None;
    let mut port: u16 = default_port;
    let mut issues: Vec<ArgIssue> = Vec::new();
    let mut i: usize = 1;
    while i < args.len()
        invariant
            av == args@.map_values(|a: String| a@),
            ip_ok@.len() == args@.len(),
            1 <= i,
            scan_spec(av, ip_ok@, 1, None, default_port) == {
                let (a, b, c) = scan_spec(av, ip_ok@, i as int, ip, port);
                (a, b, issues@ + c)
            },
        decreases args@.len() - i,
    {
        let ghost (ip0, port0, issues0) = (ip, port, issues@);
        let arg = args[i].as_str();
        assert(av[i as int] == arg@);
        if str_eq(arg, "--ip") {
            if i + 1 < args.len() {
                if ip_ok[i + 1] {
                    ip = Some(i + 1);
                } else {
                    issues.push(ArgIssue::BadIp { arg: i + 1, kept_ip: ip });
                    proof {
                        let (a, b, c) = scan_spec(av, ip_ok@, i + 2, ip0, port0);
                        assert(issues0 + (seq![ArgIssue::BadIp { arg: (i + 1) as usize, kept_ip: ip0 }] + c)
                            =~= issues@ + c);
                    }
                }
                i = i + 2;
                continue;
            } else {
                issues.push(ArgIssue::MissingIp);
                proof {
                    let (a, b, c) = scan_spec(av, ip_ok@, i + 1, ip0, port0);
                    assert(issues0 + (seq![ArgIssue::MissingIp] + c) =~= issues@ + c);
                }
            }
        } else if str_eq(arg, "--port") {
            if i + 1 < args.len() {
                let v = args[i + 1].as_str();
                assert(av[i + 1] == v@);
                match parse_u16(v) {
                    Some(p) => {
                        port = p;
                    },
                    None => {
                        issues.push(ArgIssue::BadPort { arg: i + 1, kept_port: port });
                        proof {
                            let (a, b, c) = scan_spec(av, ip_ok@, i + 2, ip0, port0);
                            assert(issues0 + (seq![ArgIssue::BadPort { arg: (i + 1) as usize, kept_port: port0 }] + c)
                                =~= issues@ + c);
                        }
                    },
                }
                i = i + 2;
                continue;
            } else {
                issues.push(ArgIssue::MissingPort);
                proof {
                    let (a, b, c) = scan_spec(av, ip_ok@, i + 1, ip0, port0);
                    assert(issues0 + (seq![ArgIssue::MissingPort] + c) =~= issues@ + c);
                }
            }
        }
        i = i + 1;
    }
    proof {
        assert(issues@ + Seq::<ArgIssue>::empty() =~= issues@);
    }
    AddrArgs { ip_arg: ip, port, issues }
}

} // verus!

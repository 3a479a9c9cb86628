//! The pure parts of the port-scanner and process-killer glue: parsing a
//! port number out of a scanner's address column, and reading a kill
//! command's complaint. Running `lsof`, `netstat` or `kill` is OS-command
//! work that stays with the caller.

use vstd::prelude::*;
use vstd::string::*;

verus! {

/// One listening TCP port with its owning process, as a scan reports it.
pub struct PortInfo {
    pub port: u16,
    pub pid: u32,
    pub protocol: String,
    pub process_name: String,
    pub address: String,
    pub user: String,
    pub fd: String,
    pub command: Option<String>,
    pub is_active: bool,
}

/// Why a port scan failed.
pub enum ScanError {
    /// The scanning OS command could not be run, or reported failure.
    CommandFailed(String),
}

/// Why killing a process failed.
pub enum KillError {
    /// PID zero is never a valid target.
    InvalidPid,
    /// The kill OS command could not be run, or reported failure.
    CommandFailed(String),
}

/// An ASCII decimal digit.
pub open spec fn is_digit_char(c: char) -> bool {
    let u = c as u32;
    48 <= u && u <= 57
}

/// The numeric value of an ASCII decimal digit.
pub open spec fn digit_val(c: char) -> int {
    c as u32 - 48
}

/// Every character is an ASCII decimal digit.
pub open spec fn all_digits(s: Seq<char>) -> bool {
    forall|i: int| 0 <= i < s.len() ==> is_digit_char(#[trigger] s[i])
}

/// The decimal value of a digit string.
pub open spec fn dec_val(s: Seq<char>) -> int
    decreases s.len(),
{
    if s.len() == 0 {
        0
    } else {
        dec_val(s.drop_last()) * 10 + digit_val(s.last())
    }
}

/// `i` is the last colon of `s`.
pub open spec fn is_last_colon(s: Seq<char>, i: int) -> bool {
    0 <= i < s.len() && s[i] == ':' && (forall|m: int| i < m < s.len() ==> s[m] != ':')
}

/// `s` holds a colon.
pub open spec fn has_colon(s: Seq<char>) -> bool {
    exists|i: int| 0 <= i < s.len() && s[i] == ':'
}

/// The index of the last colon of `s` (meaningful only when `has_colon`
/// holds).
pub open spec fn last_colon(s: Seq<char>) -> int {
    choose|i: int| is_last_colon(s, i)
}

/// `e` ends the run of digits that starts at `from`.
pub open spec fn is_digit_run_end(s: Seq<char>, from: int, e: int) -> bool {
    &&& from <= e <= s.len()
    &&& (forall|m: int| from <= m < e ==> is_digit_char(#[trigger] s[m]))
    &&& (e == s.len() || !is_digit_char(s[e]))
}

/// Where the run of digits starting at `from` ends.
pub open spec fn digit_run_end(s: Seq<char>, from: int) -> int {
    choose|e: int| is_digit_run_end(s, from, e)
}

/// What parsing the text after the last colon as a port yields: the
/// whole suffix must be a nonempty digit string no larger than the
/// largest port.
pub open spec fn spec_parse_port_from_local(s: Seq<char>) -> Option<u16> {
    if has_colon(s) {
        let t = s.subrange(last_colon(s) + 1, s.len() as int);
        if t.len() > 0 && all_digits(t) && dec_val(t) <= 65535 {
            Some(dec_val(t) as u16)
        } else {
            None
        }
    } else {
        None
    }
}

/// What parsing the digits right after the last colon as a port yields:
/// the digit run must be nonempty and no larger than the largest port;
/// whatever follows the run is ignored.
pub open spec fn spec_parse_port_from_name(s: Seq<char>) -> Option<u16> {
    if has_colon(s) {
        let b = last_colon(s) + 1;
        let e = digit_run_end(s, b);
        if e > b && dec_val(s.subrange(b, e)) <= 65535 {
            Some(dec_val(s.subrange(b, e)) as u16)
        } else {
            None
        }
    } else {
        None
    }
}

/// Whether `c` is an ASCII decimal digit.
fn is_digit(c: char) -> (r: bool)
    ensures
        r == is_digit_char(c),
{
    let u = c as u32;
    48 <= u && u <= 57
}

/// The index of the last colon of `s`, if any.
fn rfind_colon(s: &str) -> (r: Option<usize>)
    ensures
        r matches Some(i) ==> is_last_colon(s@, i as int) && last_colon(s@) == i as int
            && has_colon(s@),
        r is None ==> !has_colon(s@),
{
    let n = s.unicode_len();
    let mut i: usize = n;
    while i > 0
        invariant
            n == s@.len(),
            i <= n,
            forall|m: int| i <= m < n ==> s@[m] != ':',
        decreases i,
    {
        i -= 1;
        if s.get_char(i) == ':' {
            proof {
                assert(is_last_colon(s@, i as int));
                let j = last_colon(s@);
                assert(is_last_colon(s@, j));
                if j < i {
                    assert(s@[i as int] == ':');
                } else if j > i {
                    assert(s@[j] == ':');
                }
            }
            return Some(i);
        }
    }
    proof {
        if has_colon(s@) {
            let w = choose|w: int| 0 <= w < s@.len() && s@[w] == ':';
            assert(s@[w] != ':');
        }
    }
    None
}

/// Parse `s[from..to]` as a decimal port number: every character must be
/// a digit, at least one, and the value must fit a port.
fn parse_port_digits(s: &str, from: usize, to: usize) -> (r: Option<u16>)
    requires
        from <= to <= s@.len(),
    ensures
        ({
            let t = s@.subrange(from as int, to as int);
            &&& (r matches Some(p) ==> t.len() > 0 && all_digits(t) && dec_val(t) == p)
            &&& (r is None ==> t.len() == 0 || !all_digits(t) || dec_val(t) > 65535)
        }),
{
    let ghost t = s@.subrange(from as int, to as int);
    if from == to {
        return None;
    }
    let mut val: u32 = 0;
    let mut over: bool = false;
    let mut i: usize = from;
    while i < to
        invariant
            from <= i <= to <= s@.len(),
            t == s@.subrange(from as int, to as int),
            all_digits(s@.subrange(from as int, i as int)),
            !over ==> val <= 65535 && val == dec_val(s@.subrange(from as int, i as int)),
            over ==> dec_val(s@.subrange(from as int, i as int)) > 65535,
        decreases to - i,
    {
        let c = s.get_char(i);
        let u = c as u32;
        if !(48 <= u && u <= 57) {
            assert(!is_digit_char(s@[i as int]));
            assert(!all_digits(t)) by {
                assert(t[i - from] == s@[i as int]);
            }
            return None;
        }
        proof {
            let pre = s@.subrange(from as int, i as int);
            let next = s@.subrange(from as int, i + 1);
            assert(next.drop_last() =~= pre);
            assert(next.last() == s@[i as int]);
            assert(dec_val(next) == dec_val(pre) * 10 + digit_val(s@[i as int]));
            assert(all_digits(next));
        }
        if !over {
            let d: u32 = u - 48;
            let next_val: u32 = val * 10 + d;
            if next_val > 65535 {
                over = true;
            } else {
                val = next_val;
            }
            proof {
                if next_val > 65535 {
                    assert(dec_val(s@.subrange(from as int, i + 1)) == val * 10 + d);
                }
            }
        } else {
            proof {
                let pre = s@.subrange(from as int, i as int);
                assert(dec_val(s@.subrange(from as int, i + 1)) >= dec_val(pre) * 10);
            }
        }
        i += 1;
    }
    proof {
        assert(s@.subrange(from as int, i as int) =~= t);
    }
    if over {
        return None;
    }
    Some(val as u16)
}

/// Parse a port out of a `netstat`-style local address column: the text
/// after the last colon, as a whole, as a port number.
pub fn parse_port_from_local(local: &str) -> (r: Option<u16>)
    ensures
        r == spec_parse_port_from_local(local@),
{
    let n = local.unicode_len();
    match rfind_colon(local) {
        None => None,
        Some(i) => parse_port_digits(local, i + 1, n),
    }
}

/// Parse a port out of an `lsof`-style name column: the digits right
/// after the last colon, ignoring whatever follows them.
pub fn parse_port_from_name(name: &str) -> (r: Option<u16>)
    ensures
        r == spec_parse_port_from_name(name@),
{
    let n = name.unicode_len();
    match rfind_colon(name) {
        None => None,
        Some(i) => {
            let b = i + 1;
            let mut e: usize = b;
            while e < n && is_digit(name.get_char(e))
                invariant
                    n == name@.len(),
                    b <= e <= n,
                    forall|m: int| b <= m < e ==> is_digit_char(#[trigger] name@[m]),
                decreases n - e,
            {
                e += 1;
            }
            proof {
                assert(is_digit_run_end(name@, b as int, e as int));
                let e2 = digit_run_end(name@, b as int);
                assert(is_digit_run_end(name@, b as int, e2));
                if e2 < e {
                    assert(is_digit_char(name@[e2]));
                } else if e2 > e {
                    assert(is_digit_char(name@[e as int]));
                }
            }
            if e == b {
                return None;
            }
            parse_port_digits(name, b, e)
        },
    }
}

/// `No such process` stands at index `i` of `s`.
pub open spec fn no_such_process_at(s: Seq<char>, i: int) -> bool {
    &&& 0 <= i
    &&& i + 15 <= s.len()
    &&& s[i] == 'N'
    &&& s[i + 1] == 'o'
    &&& s[i + 2] == ' '
    &&& s[i + 3] == 's'
    &&& s[i + 4] == 'u'
    &&& s[i + 5] == 'c'
    &&& s[i + 6] == 'h'
    &&& s[i + 7] == ' '
    &&& s[i + 8] == 'p'
    &&& s[i + 9] == 'r'
    &&& s[i + 10] == 'o'
    &&& s[i + 11] == 'c'
    &&& s[i + 12] == 'e'
    &&& s[i + 13] == 's'
    &&& s[i + 14] == 's'
}

/// The kill command's way of saying the PID already exited between the
/// scan and the kill: such a complaint is success, not failure.
pub fn is_no_such_process(stderr: &str) -> (r: bool)
    ensures
        r == exists|i: int| no_such_process_at(stderr@, i),
{
    let n = stderr.unicode_len();
    if n < 15 {
        proof {
            if exists|k: int| no_such_process_at(stderr@, k) {
                let k = choose|k: int| no_such_process_at(stderr@, k);
                assert(k + 15 <= n);
            }
        }
        return false;
    }
    let mut i: usize = 0;
    while i <= n - 15
        invariant
            15 <= n == stderr@.len(),
            i <= n,
            forall|k: int| 0 <= k < i ==> !no_such_process_at(stderr@, k),
        decreases n - i,
    {
        if stderr.get_char(i) == 'N' && stderr.get_char(i + 1) == 'o'
            && stderr.get_char(i + 2) == ' ' && stderr.get_char(i + 3) == 's'
            && stderr.get_char(i + 4) == 'u' && stderr.get_char(i + 5) == 'c'
            && stderr.get_char(i + 6) == 'h' && stderr.get_char(i + 7) == ' '
            && stderr.get_char(i + 8) == 'p' && stderr.get_char(i + 9) == 'r'
            && stderr.get_char(i + 10) == 'o' && stderr.get_char(i + 11) == 'c'
            && stderr.get_char(i + 12) == 'e' && stderr.get_char(i + 13) == 's'
            && stderr.get_char(i + 14) == 's' {
            assert(no_such_process_at(stderr@, i as int));
            return true;
        }
        assert(!no_such_process_at(stderr@, i as int));
        i += 1;
    }
    proof {
        if exists|k: int| no_such_process_at(stderr@, k) {
            let k = choose|k: int| no_such_process_at(stderr@, k);
            assert(k + 15 <= n);
            assert(!no_such_process_at(stderr@, k));
        }
    }
    false
}

/// A one-character string for a decimal digit.
fn digit_str(d: u16) -> (r: &'static str)
    requires
        d < 10,
    ensures
        r@.len() == 1,
        is_digit_char(r@[0]),
        digit_val(r@[0]) == d,
{
    proof {
        reveal_strlit("0");
        reveal_strlit("1");
        reveal_strlit("2");
        reveal_strlit("3");
        reveal_strlit("4");
        reveal_strlit("5");
        reveal_strlit("6");
        reveal_strlit("7");
        reveal_strlit("8");
        reveal_strlit("9");
    }
    match d {
        0 => "0",
        1 => "1",
        2 => "2",
        3 => "3",
        4 => "4",
        5 => "5",
        6 => "6",
        7 => "7",
        8 => "8",
        _ => "9",
    }
}

/// The decimal rendering of `v`: nonempty, digits only, the value
/// itself, and no leading zero (a lone zero for zero).
pub fn u16_to_decimal(v: u16) -> (r: String)
    ensures
        r@.len() > 0,
        all_digits(r@),
        dec_val(r@) == v,
        v > 0 ==> digit_val(r@[0]) > 0,
        v == 0 ==> r@.len() == 1,
    decreases v,
{
    if v < 10 {
        let s = digit_str(v);
        proof {
            reveal_with_fuel(dec_val, 2);
            assert(s@.drop_last() =~= Seq::<char>::empty());
            assert(dec_val(s@) == dec_val(s@.drop_last()) * 10 + digit_val(s@[0]));
        }
        String::from_str(s)
    } else {
        let prefix = u16_to_decimal(v / 10);
        let last = digit_str(v % 10);
        let r = prefix.concat(last);
        proof {
            assert(r@.drop_last() =~= prefix@);
            assert(r@.last() == last@[0]);
            assert(dec_val(r@) == dec_val(prefix@) * 10 + digit_val(last@[0]));
            assert(v == 10 * (v / 10) + v % 10);
            assert forall|i: int| 0 <= i < r@.len()
                implies is_digit_char(#[trigger] r@[i]) by {
                if i < prefix@.len() {
                    assert(r@[i] == prefix@[i]);
                } else {
                    assert(r@[i] == last@[0]);
                }
            }
            assert(r@[0] == prefix@[0]);
        }
        r
    }
}

/// Mathematical model of a [`PortInfo`] row.
pub ghost struct PortInfoV {
    pub port: u16,
    pub pid: u32,
    pub protocol: Seq<char>,
    pub process_name: Seq<char>,
    pub address: Seq<char>,
    pub user: Seq<char>,
    pub fd: Seq<char>,
    pub command: Option<Seq<char>>,
    pub is_active: bool,
}

impl View for PortInfo {
    type V = PortInfoV;

    open spec fn view(&self) -> PortInfoV {
        PortInfoV {
            port: self.port,
            pid: self.pid,
            protocol: self.protocol@,
            process_name: self.process_name@,
            address: self.address@,
            user: self.user@,
            fd: self.fd@,
            command: match self.command {
                Some(c) => Some(c@),
                None => None,
            },
            is_active: self.is_active,
        }
    }
}

impl Clone for PortInfo {
    fn clone(&self) -> (r: Self)
        ensures
            r@ == self@,
    {
        PortInfo {
            port: self.port,
            pid: self.pid,
            protocol: self.protocol.clone(),
            process_name: self.process_name.clone(),
            address: self.address.clone(),
            user: self.user.clone(),
            fd: self.fd.clone(),
            command: match &self.command {
                Some(c) => Some(c.clone()),
                None => None,
            },
            is_active: self.is_active,
        }
    }
}

/// The models behind a sequence of rows.
pub open spec fn row_views(s: Seq<PortInfo>) -> Seq<PortInfoV> {
    s.map(|i: int, p: PortInfo| p@)
}

/// Rows listed in strictly ascending port order.
pub open spec fn rows_sorted(s: Seq<PortInfoV>) -> bool {
    forall|i: int, j: int| 0 <= i < j < s.len() ==> s[i].port < s[j].port
}

/// Some row of `s` is for `port`.
pub open spec fn has_row(s: Seq<PortInfoV>, port: u16) -> bool {
    exists|i: int| 0 <= i < s.len() && s[i].port == port
}

/// Nothing before index `k` repeats the port of the row at `k`.
pub open spec fn is_first_row(s: Seq<PortInfoV>, k: int) -> bool {
    0 <= k < s.len() && forall|m: int| 0 <= m < k ==> s[m].port != s[k].port
}

/// `v` is a row of `input`, and the first one for its port.
pub open spec fn row_appears_first(input: Seq<PortInfoV>, v: PortInfoV) -> bool {
    exists|k: int| v == input[k] && #[trigger] is_first_row(input, k)
}

/// Scanner display policy: one row per port — the first one a scan
/// reported — in ascending port order.
pub fn collect_port_infos(found: Vec<PortInfo>) -> (r: Vec<PortInfo>)
    ensures
        rows_sorted(row_views(r@)),
        forall|j: int| 0 <= j < r@.len()
            ==> row_appears_first(row_views(found@), #[trigger] row_views(r@)[j]),
        forall|k: int| 0 <= k < found@.len()
            ==> has_row(row_views(r@), #[trigger] row_views(found@)[k].port),
{
    let ghost fv = row_views(found@);
    let n = found.len();
    let mut out: Vec<PortInfo> = Vec::new();
    let mut i: usize = 0;
    while i < n
        invariant
            fv == row_views(found@),
            n == found@.len(),
            i <= n,
            rows_sorted(row_views(out@)),
            forall|j: int| 0 <= j < out@.len() ==> exists|k: int|
                #[trigger] row_views(out@)[j] == fv[k] && 0 <= k < i && is_first_row(fv, k),
            forall|k: int| 0 <= k < i ==> has_row(row_views(out@), #[trigger] fv[k].port),
        decreases n - i,
    {
        let row = &found[i];
        // the insertion point among the sorted rows, unless present
        let m = out.len();
        let mut pos: usize = 0;
        while pos < m && out[pos].port < row.port
            invariant
                m == out@.len(),
                pos <= m,
                forall|q: int| 0 <= q < pos ==> row_views(out@)[q].port < row@.port,
            decreases m - pos,
        {
            proof {
                assert(row_views(out@)[pos as int].port < row@.port);
            }
            pos += 1;
        }
        let present = pos < m && out[pos].port == row.port;
        if !present {
            let ghost pre = row_views(out@);
            proof {
                if pos < m {
                    assert(row_views(out@)[pos as int].port > row@.port);
                    assert forall|q: int| pos <= q < pre.len()
                        implies row@.port < #[trigger] pre[q].port by {
                        if q > pos {
                            assert(pre[pos as int].port < pre[q].port);
                        }
                    }
                }
            }
            out.insert(pos, row.clone());
            proof {
                assert(row_views(out@) =~= pre.insert(pos as int, row@));
                assert(row@ == fv[i as int]);
                let now_v = row_views(out@);
                assert(is_first_row(fv, i as int)) by {
                    if exists|q: int| 0 <= q < i && fv[q].port == fv[i as int].port {
                        let q = choose|q: int| 0 <= q < i && fv[q].port == fv[i as int].port;
                        assert(has_row(pre, fv[q].port));
                        let w = choose|w: int| 0 <= w < pre.len() && pre[w].port == fv[q].port;
                        if w < pos {
                            assert(pre[w].port < row@.port);
                        } else {
                            assert(row@.port < pre[w].port);
                        }
                    }
                }
                assert forall|j: int| 0 <= j < now_v.len() implies exists|k: int|
                    #[trigger] now_v[j] == fv[k] && 0 <= k < i + 1 && is_first_row(fv, k) by {
                    if j == pos {
                        assert(now_v[j] == fv[i as int]);
                    } else {
                        let jj: int = if j < pos { j } else { j - 1 };
                        assert(now_v[j] == pre[jj]);
                        let k = choose|k: int|
                            pre[jj] == fv[k] && 0 <= k < i && is_first_row(fv, k);
                        assert(now_v[j] == fv[k]);
                    }
                }
                assert forall|k: int| 0 <= k < i + 1 implies has_row(
                    now_v,
                    #[trigger] fv[k].port,
                ) by {
                    if k < i {
                        let w = choose|w: int| 0 <= w < pre.len() && pre[w].port == fv[k].port;
                        if w < pos {
                            assert(now_v[w] == pre[w]);
                        } else {
                            assert(now_v[w + 1] == pre[w]);
                        }
                    } else {
                        assert(now_v[pos as int].port == fv[k].port);
                    }
                }
            }
        } else {
            proof {
                assert(row_views(out@)[pos as int].port == fv[i as int].port);
            }
        }
        i += 1;
    }
    proof {
        assert forall|j: int| 0 <= j < out@.len()
            implies row_appears_first(fv, #[trigger] row_views(out@)[j]) by {
            let k = choose|k: int|
                row_views(out@)[j] == fv[k] && 0 <= k < i && is_first_row(fv, k);
            assert(is_first_row(fv, k) && row_views(out@)[j] == fv[k]);
        }
    }
    out
}

} // verus!

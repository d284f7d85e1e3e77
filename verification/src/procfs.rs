//! Reading process ids out of the text of `/proc/[pid]/stat`.
use vstd::prelude::*;

verus! {

/// What `char::is_numeric` returns for `c`.
pub uninterp spec fn char_is_numeric(c: char) -> bool;

/// Calls `char::is_numeric`, which tells whether `c` is in one of Unicode's
/// number categories (Nd, Nl, No). The contract names the result and states
/// it for ASCII, where the only characters in those categories are the
/// digits `0` to `9` (category Nd); beyond ASCII, which characters are
/// numeric is Unicode's table, not restated here.
#[verifier::external_body]
fn is_numeric(c: char) -> (b: bool)
    ensures
        b == char_is_numeric(c),
        (c as u32) < 0x80 ==> (b <==> (0x30 <= (c as u32) && (c as u32) <= 0x39)),
{
    c.is_numeric()
}

/// The process id and parent process id of one process.
#[derive(Clone, Copy, PartialEq, Eq, Debug, Structural)]
pub struct ProcessIds {
    pub pid: i32,
    pub parent_id: i32,
}

/// Whether every character of `t` is numeric (true of the empty text).
pub open spec fn all_numeric(t: Seq<char>) -> bool {
    forall|i: int| 0 <= i < t.len() ==> #[trigger] char_is_numeric(t[i])
}

/// The characters of a string.
pub fn chars_of(s: &str) -> (v: Vec<char>)
    ensures
        v@ == s@,
{
    let mut v: Vec<char> = Vec::new();
    for c in it: s.chars()
        invariant
            it.seq() == s@,
            v@ == it.seq().take(it.index() as int),
    {
        v.push(c);
        proof {
            assert(v@ =~= it.seq().take(it.index() + 1));
        }
    }
    proof {
        assert(v@ =~= s@);
    }
    v
}

/// Whether every character of the string is numeric.
pub fn is_all_numeric(s: &str) -> (b: bool)
    ensures
        b == all_numeric(s@),
{
    let v = chars_of(s);
    all_numeric_chars(&v)
}

fn all_numeric_chars(v: &Vec<char>) -> (b: bool)
    ensures
        b == all_numeric(v@),
{
    let mut i: usize = 0;
    while i < v.len()
        invariant
            i <= v@.len(),
            forall|j: int| 0 <= j < i ==> #[trigger] char_is_numeric(v@[j]),
        decreases v@.len() - i,
    {
        if !is_numeric(v[i]) {
            return false;
        }
        i = i + 1;
    }
    true
}

/// The fields of `s[start..]` separated by single spaces, where the field
/// being read began at `start` and the scan has reached `idx` (as
/// `str::split(' ')` yields them, empty fields included).
pub open spec fn fields_from(s: Seq<char>, start: nat, idx: nat) -> Seq<Seq<char>>
    decreases s.len() - idx,
{
    if idx >= s.len() {
        seq![s.subrange(start as int, s.len() as int)]
    } else if s[idx as int] == ' ' {
        seq![s.subrange(start as int, idx as int)] + fields_from(s, idx + 1, idx + 1)
    } else {
        fields_from(s, start, idx + 1)
    }
}

/// The space-separated fields of `s`.
pub open spec fn fields(s: Seq<char>) -> Seq<Seq<char>> {
    fields_from(s, 0, 0)
}

/// A copy of `s[start..end]`.
fn copy_chars(s: &Vec<char>, start: usize, end: usize) -> (r: Vec<char>)
    requires
        start <= end <= s@.len(),
    ensures
        r@ == s@.subrange(start as int, end as int),
{
    let mut r: Vec<char> = Vec::new();
    let mut i = start;
    while i < end
        invariant
            start <= i <= end <= s@.len(),
            r@ == s@.subrange(start as int, i as int),
        decreases end - i,
    {
        r.push(s[i]);
        i = i + 1;
        proof {
            assert(r@ =~= s@.subrange(start as int, i as int));
        }
    }
    r
}

/// The texts held by a vector of character vectors.
pub open spec fn texts(v: Seq<Vec<char>>) -> Seq<Seq<char>> {
    v.map_values(|x: Vec<char>| x@)
}

/// Splits `s` at every space.
pub fn split_fields(s: &Vec<char>) -> (f: Vec<Vec<char>>)
    ensures
        texts(f@) == fields(s@),
        f@.len() >= 1,
{
    let len = s.len();
    let mut out: Vec<Vec<char>> = Vec::new();
    let mut start: usize = 0;
    let mut i: usize = 0;
    while i < len
        invariant
            len == s@.len(),
            start <= i <= len,
            fields(s@) == texts(out@) + fields_from(s@, start as nat, i as nat),
        decreases len - i,
    {
        if s[i] == ' ' {
            let ghost before = texts(out@);
            let piece = copy_chars(s, start, i);
            out.push(piece);
            proof {
                assert(texts(out@) =~= before + seq![s@.subrange(start as int, i as int)]);
            }
            start = i + 1;
        }
        i = i + 1;
    }
    let ghost before = texts(out@);
    let piece = copy_chars(s, start, len);
    out.push(piece);
    proof {
        assert(texts(out@) =~= before + seq![s@.subrange(start as int, len as int)]);
    }
    out
}

/// Whether `c` is one of the ASCII digits `0`-`9`.
pub open spec fn is_ascii_digit(c: char) -> bool {
    '0' <= c && c <= '9'
}

/// A nonempty run of ASCII digits.
pub open spec fn all_digits(d: Seq<char>) -> bool {
    d.len() > 0 && forall|i: int| 0 <= i < d.len() ==> #[trigger] is_ascii_digit(d[i])
}

/// The decimal value of a run of ASCII digits.
pub open spec fn digits_value(d: Seq<char>) -> int
    decreases d.len(),
{
    if d.len() == 0 {
        0
    } else {
        digits_value(d.drop_last()) * 10 + (d.last() as int - '0' as int)
    }
}

/// What `str::parse::<i32>` returns: an optional `+` or `-` sign followed by
/// one or more ASCII digits whose value fits in an `i32`.
pub open spec fn spec_parse_i32(t: Seq<char>) -> Option<i32> {
    if t.len() > 0 && t[0] == '-' {
        let d = t.drop_first();
        if all_digits(d) && digits_value(d) <= 0x8000_0000 {
            Some((0 - digits_value(d)) as i32)
        } else {
            None
        }
    } else {
        let d = if t.len() > 0 && t[0] == '+' {
            t.drop_first()
        } else {
            t
        };
        if all_digits(d) && digits_value(d) <= 0x7fff_ffff {
            Some(digits_value(d) as i32)
        } else {
            None
        }
    }
}

proof fn lemma_digits_value_grows(d: Seq<char>, k: int)
    requires
        0 <= k <= d.len(),
        forall|i: int| 0 <= i < d.len() ==> #[trigger] is_ascii_digit(d[i]),
    ensures
        digits_value(d) >= digits_value(d.take(k)),
        digits_value(d.take(k)) >= 0,
    decreases d.len() - k,
{
    assert forall|i: int| 0 <= i < d.take(k).len() implies #[trigger] is_ascii_digit(
        d.take(k)[i],
    ) by {
        assert(d.take(k)[i] == d[i]);
    }
    lemma_digits_value_nonneg(d.take(k));
    if k < d.len() {
        lemma_digits_value_grows(d, k + 1);
        assert(d.take(k + 1).drop_last() =~= d.take(k));
        assert(d.take(k + 1).last() == d[k]);
        assert(is_ascii_digit(d[k]));
    } else {
        assert(d.take(k) =~= d);
        lemma_digits_value_nonneg(d);
    }
}

proof fn lemma_digits_value_nonneg(d: Seq<char>)
    requires
        forall|i: int| 0 <= i < d.len() ==> #[trigger] is_ascii_digit(d[i]),
    ensures
        digits_value(d) >= 0,
    decreases d.len(),
{
    if d.len() > 0 {
        assert(is_ascii_digit(d[d.len() - 1]));
        lemma_digits_value_nonneg(d.drop_last());
    }
}

/// `str::parse::<i32>` on the text `t`.
pub fn parse_i32(t: &Vec<char>) -> (r: Option<i32>)
    ensures
        r == spec_parse_i32(t@),
{
    let n = t.len();
    if n == 0 {
        return None;
    }
    let neg = t[0] == '-';
    let start: usize = if t[0] == '-' || t[0] == '+' {
        1
    } else {
        0
    };
    let ghost d = t@.subrange(start as int, n as int);
    proof {
        if start == 1 {
            assert(d =~= t@.drop_first());
        } else {
            assert(d =~= t@);
        }
    }
    if start == n {
        assert(d.len() == 0);
        return None;
    }
    let mut acc: u64 = 0;
    let mut i: usize = start;
    while i < n
        invariant
            start <= i <= n,
            n == t@.len(),
            start < n,
            d == t@.subrange(start as int, n as int),
            start == (if t@[0] == '-' || t@[0] == '+' {
                1usize
            } else {
                0usize
            }),
            start == 1 ==> d == t@.drop_first(),
            start == 0 ==> d == t@,
            forall|j: int| start <= j < i ==> #[trigger] is_ascii_digit(t@[j]),
            acc == digits_value(t@.subrange(start as int, i as int)),
            acc <= 0x8000_0000,
        decreases n - i,
    {
        let c = t[i];
        if !('0' <= c && c <= '9') {
            assert(!is_ascii_digit(d[i - start]));
            return None;
        }
        let digit = (c as u32 - '0' as u32) as u64;
        proof {
            let pre = t@.subrange(start as int, i as int);
            let post = t@.subrange(start as int, i + 1);
            assert(post.drop_last() =~= pre);
            assert(post.last() == c);
        }
        acc = acc * 10 + digit;
        i = i + 1;
        if acc > 0x8000_0000 {
            proof {
                if all_digits(d) {
                    lemma_digits_value_grows(d, (i - start) as int);
                    assert(d.take((i - start) as int) =~= t@.subrange(start as int, i as int));
                }
            }
            return None;
        }
    }
    proof {
        assert(t@.subrange(start as int, n as int) =~= d);
        assert(all_digits(d));
    }
    if neg {
        if acc == 0x8000_0000 {
            Some(i32::MIN)
        } else {
            Some(-(acc as i32))
        }
    } else {
        if acc > 0x7fff_ffff {
            None
        } else {
            Some(acc as i32)
        }
    }
}

/// The fields from the first all-numeric one on.
pub open spec fn skip_non_numeric(f: Seq<Seq<char>>) -> Seq<Seq<char>>
    decreases f.len(),
{
    if f.len() == 0 {
        f
    } else if all_numeric(f[0]) {
        f
    } else {
        skip_non_numeric(f.drop_first())
    }
}

/// The ids in the text of `/proc/[pid]/stat`: the first space-separated field
/// is the process id, and the first all-numeric field after it is the parent
/// id. `None` when a field is missing or does not parse as an `i32`.
pub open spec fn spec_stat_ids(s: Seq<char>) -> Option<ProcessIds> {
    let f = fields(s);
    match spec_parse_i32(f[0]) {
        None => None,
        Some(pid) => {
            let rest = skip_non_numeric(f.drop_first());
            if rest.len() == 0 {
                None
            } else {
                match spec_parse_i32(rest[0]) {
                    None => None,
                    Some(parent_id) => Some(ProcessIds { pid, parent_id }),
                }
            }
        }
    }
}

/// The process id and parent process id in the text of `/proc/[pid]/stat`,
/// if they are there: see `spec_stat_ids`.
pub fn stat_ids(s: &str) -> (r: Option<ProcessIds>)
    ensures
        r == spec_stat_ids(s@),
{
    let chars = chars_of(s);
    let f = split_fields(&chars);
    let ghost fv = texts(f@);
    let pid = match parse_i32(&f[0]) {
        None => return None,
        Some(p) => p,
    };
    let mut k: usize = 1;
    proof {
        assert(fv.drop_first() =~= fv.subrange(1, fv.len() as int));
    }
    while k < f.len() && !all_numeric_chars(&f[k])
        invariant
            1 <= k <= f@.len(),
            fv == texts(f@),
            skip_non_numeric(fv.drop_first()) == skip_non_numeric(fv.subrange(k as int, fv.len() as int)),
        decreases f@.len() - k,
    {
        proof {
            let cur = fv.subrange(k as int, fv.len() as int);
            assert(cur.drop_first() =~= fv.subrange(k + 1, fv.len() as int));
        }
        k = k + 1;
    }
    if k == f.len() {
        proof {
            assert(fv.subrange(k as int, fv.len() as int) =~= Seq::<Seq<char>>::empty());
        }
        return None;
    }
    proof {
        let cur = fv.subrange(k as int, fv.len() as int);
        assert(cur[0] == fv[k as int]);
    }
    match parse_i32(&f[k]) {
        None => None,
        Some(parent_id) => Some(ProcessIds { pid, parent_id }),
    }
}

/// Whether `parse_stat` accepts this `/proc/[pid]/stat` text.
pub fn stat_is_parsable(s: &str) -> (b: bool)
    ensures
        b == spec_stat_ids(s@).is_some(),
{
    stat_ids(s).is_some()
}

/// Reads the process id and parent process id out of the text of
/// `/proc/[pid]/stat`: the first field, and the first all-numeric field after it.
pub fn parse_stat(s: &str) -> (ids: ProcessIds)
    requires
        spec_stat_ids(s@).is_some(),
    ensures
        spec_stat_ids(s@) == Some(ids),
{
    match stat_ids(s) {
        Some(ids) => ids,
        None => ProcessIds { pid: 0, parent_id: 0 },
    }
}

/// The ASCII digits of `n` in decimal, without leading zeros.
pub open spec fn decimal_digits(n: nat) -> Seq<u8>
    decreases n,
{
    if n < 10 {
        seq![(48 + n) as u8]
    } else {
        decimal_digits(n / 10).push((48 + n % 10) as u8)
    }
}

/// The text `to_string` gives for an integer: a `-` for negative numbers,
/// then the decimal digits.
pub open spec fn decimal_text(n: int) -> Seq<u8> {
    if n < 0 {
        seq![0x2du8] + decimal_digits((-n) as nat)
    } else {
        decimal_digits(n as nat)
    }
}

fn push_decimal(n: u64, out: &mut Vec<u8>)
    ensures
        final(out)@ == old(out)@ + decimal_digits(n as nat),
    decreases n,
{
    if n >= 10 {
        push_decimal(n / 10, out);
    }
    out.push((48 + n % 10) as u8);
    proof {
        if n >= 10 {
            assert(decimal_digits(n as nat) == decimal_digits((n / 10) as nat).push(
                (48 + n % 10) as u8,
            ));
        }
    }
}

/// Appends the decimal text of `n` to `out`.
pub fn push_decimal_i64(n: i64, out: &mut Vec<u8>)
    ensures
        final(out)@ == old(out)@ + decimal_text(n as int),
{
    if n < 0 {
        out.push(0x2d);
        let magnitude: u64 = if n == i64::MIN {
            0x8000_0000_0000_0000
        } else {
            (-n) as u64
        };
        push_decimal(magnitude, out);
        assert(out@ =~= old(out)@ + decimal_text(n as int));
    } else {
        push_decimal(n as u64, out);
    }
}

/// The decimal text of `n`, as `to_string` writes it.
pub fn decimal(n: i64) -> (t: Vec<u8>)
    ensures
        t@ == decimal_text(n as int),
{
    let mut t: Vec<u8> = Vec::new();
    push_decimal_i64(n, &mut t);
    assert(t@ =~= decimal_text(n as int));
    t
}

/// The link in `/proc` that names the file open as `fd` in this process:
/// `/proc/self/fd/<fd>`.
pub fn fd_link_path(fd: i32) -> (p: Vec<u8>)
    ensures
        p@ == "/proc/self/fd/"@.map_values(|c: char| c as u8) + decimal_text(fd as int),
{
    let mut p: Vec<u8> = Vec::new();
    let prefix: [u8; 14] = [0x2f, 0x70, 0x72, 0x6f, 0x63, 0x2f, 0x73, 0x65, 0x6c, 0x66, 0x2f, 0x66, 0x64, 0x2f];
    let mut i: usize = 0;
    while i < 14
        invariant
            i <= 14,
            p@ == prefix@.take(i as int),
        decreases 14 - i,
    {
        p.push(prefix[i]);
        i = i + 1;
        assert(p@ =~= prefix@.take(i as int));
    }
    push_decimal_i64(fd as i64, &mut p);
    proof {
        reveal_strlit("/proc/self/fd/");
        assert(prefix@.take(14) =~= "/proc/self/fd/"@.map_values(|c: char| c as u8));
    }
    p
}

/// The link in `/proc` that names the executable of process `pid`:
/// `/proc/<pid>/exe`.
pub fn exe_link_path(pid: i32) -> (p: Vec<u8>)
    ensures
        p@ == "/proc/"@.map_values(|c: char| c as u8) + decimal_text(pid as int) + "/exe"@.map_values(
            |c: char| c as u8,
        ),
{
    let mut p: Vec<u8> = Vec::new();
    p.push(0x2f);
    p.push(0x70);
    p.push(0x72);
    p.push(0x6f);
    p.push(0x63);
    p.push(0x2f);
    let ghost head = p@;
    push_decimal_i64(pid as i64, &mut p);
    let ghost mid = p@;
    p.push(0x2f);
    p.push(0x65);
    p.push(0x78);
    p.push(0x65);
    proof {
        reveal_strlit("/proc/");
        reveal_strlit("/exe");
        assert(head =~= "/proc/"@.map_values(|c: char| c as u8));
        assert(p@ =~= mid + "/exe"@.map_values(|c: char| c as u8));
    }
    p
}

/// The text `to_string` gives for `n`, as characters.
pub open spec fn decimal_chars(n: int) -> Seq<char> {
    decimal_text(n).map_values(|b: u8| b as char)
}

proof fn lemma_decimal_digits_read_back(n: nat)
    ensures
        all_digits(decimal_digits(n).map_values(|b: u8| b as char)),
        digits_value(decimal_digits(n).map_values(|b: u8| b as char)) == n,
        decimal_digits(n).len() > 0,
    decreases n,
{
    let d = decimal_digits(n).map_values(|b: u8| b as char);
    if n < 10 {
        let c = ((48 + n) as u8) as char;
        assert(d =~= seq![c]);
        assert(d.drop_last() =~= Seq::<char>::empty());
        assert(c as int == 48 + n);
        assert(d.last() == c);
        assert(digits_value(d.drop_last()) == 0);
        assert(digits_value(d) == n);
        assert(is_ascii_digit(d[0]));
    } else {
        lemma_decimal_digits_read_back(n / 10);
        let front = decimal_digits(n / 10).map_values(|b: u8| b as char);
        let c = ((48 + n % 10) as u8) as char;
        assert(d =~= front.push(c));
        assert(d.drop_last() =~= front);
        assert forall|i: int| 0 <= i < d.len() implies #[trigger] is_ascii_digit(d[i]) by {
            if i < front.len() {
                assert(d[i] == front[i]);
                assert(is_ascii_digit(front[i]));
            }
        }
        assert(c as int == 48 + n % 10);
        assert(d.last() == c);
        assert(digits_value(d) == digits_value(front) * 10 + (c as int - '0' as int));
        assert(n == (n / 10) * 10 + n % 10);
        assert(digits_value(d) == n);
    }
}

/// `str::parse::<i32>` reads back the text `to_string` writes: for every
/// `i32`, parsing its decimal text gives the same number.
pub proof fn lemma_parse_i32_of_decimal(n: i32)
    ensures
        spec_parse_i32(decimal_chars(n as int)) == Some(n),
{
    let t = decimal_chars(n as int);
    if n < 0 {
        let m = (-(n as int)) as nat;
        lemma_decimal_digits_read_back(m);
        let d = decimal_digits(m).map_values(|b: u8| b as char);
        assert(t =~= seq![(0x2du8) as char] + d);
        assert(t[0] == '-');
        assert(t.drop_first() =~= d);
    } else {
        lemma_decimal_digits_read_back(n as nat);
        let d = decimal_digits(n as nat).map_values(|b: u8| b as char);
        assert(t =~= d);
        assert(is_ascii_digit(t[0]));
    }
}

proof fn lemma_skip_to(f: Seq<Seq<char>>, j: int, k: int)
    requires
        0 <= j <= k < f.len(),
        all_numeric(f[k]),
        forall|i: int| j <= i < k ==> !all_numeric(#[trigger] f[i]),
    ensures
        skip_non_numeric(f.subrange(j, f.len() as int)) == f.subrange(k, f.len() as int),
    decreases k - j,
{
    let g = f.subrange(j, f.len() as int);
    assert(g[0] == f[j]);
    if j < k {
        assert(!all_numeric(f[j]));
        assert(g.drop_first() =~= f.subrange(j + 1, f.len() as int));
        lemma_skip_to(f, j + 1, k);
    }
}

/// The ids read from a `stat` text are the numbers its fields were written
/// from: when the first field is the decimal text of `pid` and the first
/// all-numeric field after it is the decimal text of `ppid`, the result is
/// exactly `pid` and `ppid`, whatever their size.
pub proof fn lemma_stat_ids_read_back(s: Seq<char>, pid: i32, ppid: i32, k: int)
    requires
        1 <= k < fields(s).len(),
        fields(s)[0] == decimal_chars(pid as int),
        fields(s)[k] == decimal_chars(ppid as int),
        all_numeric(fields(s)[k]),
        forall|j: int| 1 <= j < k ==> !all_numeric(#[trigger] fields(s)[j]),
    ensures
        spec_stat_ids(s) == Some(ProcessIds { pid, parent_id: ppid }),
{
    let f = fields(s);
    lemma_parse_i32_of_decimal(pid);
    lemma_parse_i32_of_decimal(ppid);
    assert(f.drop_first() =~= f.subrange(1, f.len() as int));
    lemma_skip_to(f, 1, k);
    let rest = skip_non_numeric(f.drop_first());
    assert(rest[0] == f[k]);
}

} // verus!

//! The option surface the downloader and the mirror share: the parsed
//! argument record, rate-limit parsing, and output-path derivation. The
//! actual command-line parsing lives outside the library; it hands the raw
//! option values over as plain bytes.

use vstd::prelude::*;
use crate::bytes::{find2, rfind, views_of, lemma_find2_bounds, lemma_rfind_bounds};
use crate::paths::index_html;
use crate::urls::parsed_url;

verus! {

/// The options of one invocation, as plain values.
pub struct CliArgs {
    /// URL to download.
    pub url: Option<Vec<u8>>,
    /// Input file containing URLs, one per line.
    pub input_file: Option<Vec<u8>>,
    /// Output file name.
    pub output: Option<Vec<u8>>,
    /// Directory prefix.
    pub directory_prefix: Option<Vec<u8>>,
    /// Download rate limit, e.g. `300k` or `2M`.
    pub rate_limit: Option<Vec<u8>>,
    /// Mirror the whole site.
    pub mirror: bool,
    /// Rewrite links for offline viewing after mirroring.
    pub convert_links: bool,
    /// Background mode.
    pub background: bool,
    /// Comma-separated reject tokens.
    pub reject: Option<Vec<u8>>,
    /// Comma-separated excluded directories.
    pub exclude_directories: Option<Vec<u8>>,
}

/// The record of one finished download.
pub struct DownloadStats {
    pub start_time: String,
    pub end_time: String,
    pub url: String,
    pub status: String,
    pub content_length: u64,
    pub file_path: String,
    pub downloaded_size: u64,
}

pub open spec fn is_digit(b: u8) -> bool {
    48 <= b <= 57
}

pub open spec fn all_digits(s: Seq<u8>) -> bool {
    forall|i: int| 0 <= i < s.len() ==> is_digit(s[i])
}

/// The number the digit string denotes, most significant digit first.
pub open spec fn digits_val(s: Seq<u8>) -> nat
    decreases s.len(),
{
    if s.len() == 0 {
        0
    } else {
        digits_val(s.drop_last()) * 10 + (s.last() - 48) as nat
    }
}

/// What `str::parse::<u64>` accepts: an optional leading `+`, then one or
/// more digits denoting a value that fits in 64 bits.
pub open spec fn spec_parse_u64(s: Seq<u8>) -> Option<u64> {
    let digits = if s.len() >= 2 && s[0] == 43u8 {
        s.drop_first()
    } else {
        s
    };
    if digits.len() == 0 || !all_digits(digits) || digits_val(digits) > u64::MAX {
        None
    } else {
        Some(digits_val(digits) as u64)
    }
}

proof fn lemma_digits_val_grows(s: Seq<u8>, i: int)
    requires
        0 <= i <= s.len(),
    ensures
        digits_val(s.take(i)) <= digits_val(s),
    decreases s.len() - i,
{
    if i < s.len() {
        lemma_digits_val_grows(s, i + 1);
        assert(s.take(i + 1).drop_last() =~= s.take(i));
        assert(digits_val(s.take(i + 1)) == digits_val(s.take(i)) * 10 + (s.take(i + 1).last()
            - 48) as nat);
    } else {
        assert(s.take(i) =~= s);
    }
}

/// Parses an unsigned decimal number, as the rate-limit option needs it.
#[verifier::rlimit(60)]
pub fn parse_u64_bytes(s: &Vec<u8>) -> (r: Option<u64>)
    ensures
        r == spec_parse_u64(s@),
{
    let n: usize = s.len();
    let start: usize = if n >= 2 && s[0] == 43 {
        1
    } else {
        0
    };
    let ghost digits = if s@.len() >= 2 && s@[0] == 43u8 {
        s@.drop_first()
    } else {
        s@
    };
    proof {
        assert(digits =~= s@.subrange(start as int, n as int));
    }
    if n == start {
        return None;
    }
    let mut acc: u64 = 0;
    let mut i: usize = start;
    proof {
        assert(digits.take(0) =~= Seq::<u8>::empty());
    }
    while i < n
        invariant
            n == s@.len(),
            start <= i <= n,
            start <= 1,
            digits == (if s@.len() >= 2 && s@[0] == 43u8 {
                s@.drop_first()
            } else {
                s@
            }),
            digits == s@.subrange(start as int, n as int),
            forall|j: int| 0 <= j < i - start ==> is_digit(digits[j]),
            acc as nat == digits_val(digits.take(i - start)),
        decreases n - i,
    {
        let b = s[i];
        proof {
            assert(digits[i - start] == s@[i as int]);
        }
        if !(48 <= b && b <= 57) {
            assert(!all_digits(digits));
            return None;
        }
        let d: u64 = (b - 48) as u64;
        let limit: u64 = (u64::MAX - d) / 10;
        proof {
            assert(digits.take(i - start + 1).drop_last() =~= digits.take(i - start));
            assert(digits.take(i - start + 1).last() == digits[i - start]);
        }
        if acc > limit {
            proof {
                assert(u64::MAX - d == 10 * limit + ((u64::MAX - d) % 10));
                assert((u64::MAX - d) % 10 < 10);
                assert(acc * 10 + d > u64::MAX) by (nonlinear_arith)
                    requires
                        acc > limit,
                        u64::MAX - d <= 10 * limit + 9,
                ;
                assert(digits_val(digits.take(i - start + 1)) > u64::MAX);
                lemma_digits_val_grows(digits, i - start + 1);
            }
            return None;
        }
        proof {
            assert(acc * 10 + d <= u64::MAX) by (nonlinear_arith)
                requires
                    acc <= limit,
                    10 * limit <= u64::MAX - d,
            ;
        }
        acc = acc * 10 + d;
        i += 1;
    }
    proof {
        assert(digits.take(i - start) =~= digits);
    }
    Some(acc)
}

/// What the rate-limit option denotes in bytes per second: a plain number,
/// or a number scaled by 1024 for a `k`/`K` suffix and by 1048576 for an
/// `m`/`M` suffix. A value whose scaled result would not fit in 64 bits is
/// rejected rather than wrapped.
pub open spec fn spec_rate_limit(s: Seq<u8>) -> Option<u64> {
    if s.len() == 0 {
        None
    } else if s.last() == 107u8 || s.last() == 75u8 {
        match spec_parse_u64(s.drop_last()) {
            Some(x) => if x <= u64::MAX / 1024 {
                Some((x * 1024) as u64)
            } else {
                None
            },
            None => None,
        }
    } else if s.last() == 109u8 || s.last() == 77u8 {
        match spec_parse_u64(s.drop_last()) {
            Some(x) => if x <= u64::MAX / 1048576 {
                Some((x * 1048576) as u64)
            } else {
                None
            },
            None => None,
        }
    } else {
        spec_parse_u64(s)
    }
}

/// Everything before the last path separator is the directory prefix;
/// joining keeps an absolute name and an already-terminated prefix as they
/// are, as the platform path join does.
pub open spec fn spec_join_path(prefix: Seq<u8>, name: Seq<u8>) -> Seq<u8> {
    if name.len() > 0 && name[0] == 47u8 {
        name
    } else if prefix.len() == 0 {
        name
    } else if prefix[prefix.len() - 1] == 47u8 {
        prefix + name
    } else {
        prefix + seq![47u8] + name
    }
}

/// The last path segment with any query cut off; an empty segment names the
/// directory index.
pub open spec fn last_segment_name(p: Seq<u8>) -> Seq<u8> {
    let seg = p.subrange(rfind(p, 47u8) + 1, p.len() as int);
    let cut = find2(seg, 0, 63u8, 63u8);
    if cut == 0 {
        index_html()
    } else {
        seg.subrange(0, cut)
    }
}

/// The file name a URL is saved under when no explicit output name is
/// given: the last segment of the parsed URL's path, or of the raw string
/// when it does not parse.
pub open spec fn spec_filename_from_url(u: Seq<u8>) -> Seq<u8> {
    match parsed_url(u) {
        Some(parts) => last_segment_name(parts.2),
        None => last_segment_name(u),
    }
}

fn last_segment_name_exec(p: &Vec<u8>) -> (r: Vec<u8>)
    ensures
        r@ == last_segment_name(p@),
{
    let n: usize = p.len();
    proof {
        lemma_rfind_bounds(p@, 47u8);
    }
    let start: usize = match crate::bytes::rfind_exec(p, 47) {
        Some(k) => k + 1,
        None => 0,
    };
    let seg = crate::bytes::copy_range(p, start, n);
    let cut = crate::bytes::find2_exec(&seg, 0, 63, 63);
    proof {
        lemma_find2_bounds(seg@, 0, 63u8, 63u8);
    }
    if cut == 0 {
        crate::paths::index_html_vec()
    } else {
        crate::bytes::copy_range(&seg, 0, cut)
    }
}

/// Derives the saved file's name from a URL.
pub fn get_filename_from_url(url: &Vec<u8>) -> (r: Vec<u8>)
    ensures
        r@ == spec_filename_from_url(url@),
{
    match crate::urls::parse_page_url(url) {
        Some(u) => last_segment_name_exec(&u.path),
        None => last_segment_name_exec(url),
    }
}

fn join_path(prefix: &Vec<u8>, name: Vec<u8>) -> (r: Vec<u8>)
    ensures
        r@ == spec_join_path(prefix@, name@),
{
    let n: usize = name.len();
    if n > 0 && name[0] == 47 {
        return name;
    }
    let m: usize = prefix.len();
    if m == 0 {
        return name;
    }
    let mut out = crate::bytes::copy_bytes(prefix);
    if prefix[m - 1] != 47 {
        out.push(47);
    }
    crate::bytes::append_range(&mut out, &name, 0, n);
    proof {
        assert(name@.subrange(0, name@.len() as int) =~= name@);
        if prefix@[m - 1] == 47u8 {
            assert(out@ =~= prefix@ + name@);
        } else {
            assert(out@ =~= prefix@ + seq![47u8] + name@);
        }
    }
    out
}

pub open spec fn is_space(b: u8) -> bool {
    b == 9 || b == 10 || b == 11 || b == 12 || b == 13 || b == 32
}

/// Length of the whitespace character starting at `i`: 1 for ASCII
/// whitespace, 2 or 3 for the UTF-8 encoding of any other character that
/// `char::is_whitespace` accepts (next line, no-break space, ogham space,
/// the typographic spaces, the line and paragraph separators, and the
/// ideographic space), 0 when no whitespace character starts here.
pub open spec fn space_len_at(l: Seq<u8>, i: int) -> int {
    if 0 <= i < l.len() && is_space(l[i]) {
        1
    } else if 0 <= i && i + 2 <= l.len() && l[i] == 0xC2 && (l[i + 1] == 0x85 || l[i + 1]
        == 0xA0) {
        2
    } else if 0 <= i && i + 3 <= l.len() && l[i] == 0xE1 && l[i + 1] == 0x9A && l[i + 2] == 0x80 {
        3
    } else if 0 <= i && i + 3 <= l.len() && l[i] == 0xE2 && l[i + 1] == 0x80 && (0x80 <= l[i + 2]
        <= 0x8A || l[i + 2] == 0xA8 || l[i + 2] == 0xA9 || l[i + 2] == 0xAF) {
        3
    } else if 0 <= i && i + 3 <= l.len() && l[i] == 0xE2 && l[i + 1] == 0x81 && l[i + 2] == 0x9F {
        3
    } else if 0 <= i && i + 3 <= l.len() && l[i] == 0xE3 && l[i + 1] == 0x80 && l[i + 2] == 0x80 {
        3
    } else {
        0
    }
}

/// From `i` on, the line is a run of whitespace characters to its end.
pub open spec fn blank_from(l: Seq<u8>, i: int) -> bool
    decreases l.len() - i when 0 <= i <= l.len()
{
    if i >= l.len() {
        true
    } else {
        let k = space_len_at(l, i);
        if k == 0 {
            false
        } else {
            blank_from(l, i + k)
        }
    }
}

/// Nothing but whitespace on the line: what `str::trim` would empty.
pub open spec fn is_blank(l: Seq<u8>) -> bool {
    blank_from(l, 0)
}

/// A line with its trailing carriage return, if any, removed.
pub open spec fn strip_cr(l: Seq<u8>) -> Seq<u8> {
    if l.len() > 0 && l.last() == 13u8 {
        l.drop_last()
    } else {
        l
    }
}

/// Every line with its carriage return stripped.
pub open spec fn strip_all(ls: Seq<Seq<u8>>) -> Seq<Seq<u8>> {
    Seq::new(ls.len(), |i: int| strip_cr(ls[i]))
}

/// The non-blank lines, in order.
pub open spec fn keep_nonblank(ls: Seq<Seq<u8>>) -> Seq<Seq<u8>>
    decreases ls.len(),
{
    if ls.len() == 0 {
        Seq::empty()
    } else {
        let rest = keep_nonblank(ls.drop_last());
        if !is_blank(ls.last()) {
            rest.push(ls.last())
        } else {
            rest
        }
    }
}

/// The URLs in an input file's bytes: its lines, carriage returns stripped,
/// blank lines dropped.
pub open spec fn spec_url_lines(s: Seq<u8>) -> Seq<Seq<u8>> {
    keep_nonblank(strip_all(crate::classify::spec_split(s, 10u8)))
}

fn space_len_exec(l: &Vec<u8>, i: usize) -> (r: usize)
    requires
        i < l@.len(),
    ensures
        r == space_len_at(l@, i as int),
        r > 0 ==> i + r <= l@.len(),
{
    let n: usize = l.len();
    let b = l[i];
    if b == 9 || b == 10 || b == 11 || b == 12 || b == 13 || b == 32 {
        return 1;
    }
    if b == 0xC2 && n - i >= 2 {
        let b1 = l[i + 1];
        if b1 == 0x85 || b1 == 0xA0 {
            return 2;
        }
        return 0;
    }
    if (b == 0xE1 || b == 0xE2 || b == 0xE3) && n - i >= 3 {
        let b1 = l[i + 1];
        let b2 = l[i + 2];
        if b == 0xE1 && b1 == 0x9A && b2 == 0x80 {
            return 3;
        }
        if b == 0xE2 && b1 == 0x80 && (0x80 <= b2 && b2 <= 0x8A || b2 == 0xA8 || b2 == 0xA9 || b2
            == 0xAF) {
            return 3;
        }
        if b == 0xE2 && b1 == 0x81 && b2 == 0x9F {
            return 3;
        }
        if b == 0xE3 && b1 == 0x80 && b2 == 0x80 {
            return 3;
        }
        return 0;
    }
    0
}

fn is_blank_line(l: &Vec<u8>) -> (r: bool)
    ensures
        r == is_blank(l@),
{
    let mut i: usize = 0;
    let n: usize = l.len();
    while i < n
        invariant
            n == l@.len(),
            i <= n,
            is_blank(l@) == blank_from(l@, i as int),
        decreases n - i,
    {
        let k = space_len_exec(l, i);
        if k == 0 {
            assert(!blank_from(l@, i as int));
            return false;
        }
        proof {
            assert(blank_from(l@, i as int) == blank_from(l@, i + k));
        }
        i += k;
    }
    true
}

/// Reads the URL list out of an input file's bytes, one URL per
/// non-blank line.
pub fn url_lines(s: &Vec<u8>) -> (r: Vec<Vec<u8>>)
    ensures
        views_of(r@) == spec_url_lines(s@),
{
    let lines = crate::classify::split_byte(s, 10);
    let ghost mapped = strip_all(views_of(lines@));
    let mut out: Vec<Vec<u8>> = Vec::new();
    let mut j: usize = 0;
    let n: usize = lines.len();
    proof {
        assert(mapped.take(0) =~= Seq::<Seq<u8>>::empty());
        assert(views_of(out@) =~= keep_nonblank(mapped.take(0)));
    }
    while j < n
        invariant
            n == lines@.len(),
            j <= n,
            mapped == strip_all(views_of(lines@)),
            views_of(out@) == keep_nonblank(mapped.take(j as int)),
        decreases n - j,
    {
        let li = &lines[j];
        let m: usize = li.len();
        let stripped = if m > 0 && li[m - 1] == 13 {
            crate::bytes::copy_range(li, 0, m - 1)
        } else {
            crate::bytes::copy_bytes(li)
        };
        proof {
            let lv = views_of(lines@)[j as int];
            if m > 0 && lv[m - 1] == 13u8 {
                assert(lv.drop_last() =~= lv.subrange(0, m - 1));
            }
            assert(stripped@ == strip_cr(lv));
            assert(mapped[j as int] == strip_cr(lv));
            assert(mapped.take(j + 1).drop_last() =~= mapped.take(j as int));
            assert(mapped.take(j + 1).last() == mapped[j as int]);
        }
        let blank = is_blank_line(&stripped);
        let ghost prev = views_of(out@);
        if !blank {
            let ghost sv = stripped@;
            out.push(stripped);
            proof {
                assert(views_of(out@) =~= prev.push(sv));
                assert(keep_nonblank(mapped.take(j + 1)) == keep_nonblank(mapped.take(j as int)).push(
                    sv,
                ));
            }
        } else {
            proof {
                assert(keep_nonblank(mapped.take(j + 1)) == keep_nonblank(mapped.take(j as int)));
            }
        }
        j += 1;
    }
    proof {
        assert(mapped.take(n as int) =~= mapped);
    }
    out
}

impl CliArgs {
    /// The path a download is saved to: the explicit output name or the
    /// name derived from the URL, placed under the directory prefix when
    /// one is configured.
    pub fn get_output_path(&self, url: &Vec<u8>) -> (r: Vec<u8>)
        ensures
            r@ == ({
                let name = match self.output {
                    Some(o) => o@,
                    None => spec_filename_from_url(url@),
                };
                match self.directory_prefix {
                    Some(p) => spec_join_path(p@, name),
                    None => name,
                }
            }),
    {
        let name = match &self.output {
            Some(o) => crate::bytes::copy_bytes(o),
            None => get_filename_from_url(url),
        };
        match &self.directory_prefix {
            Some(p) => join_path(p, name),
            None => name,
        }
    }

    /// The configured rate limit in bytes per second.
    pub fn parse_rate_limit(&self) -> (r: Option<u64>)
        ensures
            r == match self.rate_limit {
                Some(v) => spec_rate_limit(v@),
                None => None::<u64>,
            },
    {
        let v = match &self.rate_limit {
            Some(v) => v,
            None => {
                return None;
            },
        };
        let n: usize = v.len();
        if n == 0 {
            return None;
        }
        let lastb = v[n - 1];
        if lastb == 107 || lastb == 75 {
            let stem = crate::bytes::copy_range(v, 0, n - 1);
            proof {
                assert(stem@ =~= v@.drop_last());
            }
            match parse_u64_bytes(&stem) {
                Some(x) => {
                    if x <= u64::MAX / 1024 {
                        Some(x * 1024)
                    } else {
                        None
                    }
                },
                None => None,
            }
        } else if lastb == 109 || lastb == 77 {
            let stem = crate::bytes::copy_range(v, 0, n - 1);
            proof {
                assert(stem@ =~= v@.drop_last());
            }
            match parse_u64_bytes(&stem) {
                Some(x) => {
                    if x <= u64::MAX / 1048576 {
                        Some(x * 1048576)
                    } else {
                        None
                    }
                },
                None => None,
            }
        } else {
            parse_u64_bytes(v)
        }
    }
}

} // verus!

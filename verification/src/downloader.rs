use vstd::prelude::*;
use vstd::string::{StrSliceExecFns, StringExecFns};
use crate::config::DownloadConfig;
use crate::error::AppError;
use crate::format::{MediaFormat, audio_codec_name, video_codec_name};
use crate::text::{
    is_space, is_digit, digit_val, all_digits, dec_val, two_digits, find_char,
    lemma_find_char_at, lemma_dec_val_monotone, lemma_dec_val_nonneg, is_space_exec,
    digit_of, chars_of, u64_to_two_digits,
};
use crate::video::VideoInfo;

verus! {

/// The terminal record of one job: the item's title, whether the download
/// succeeded, and the failure reason when it did not.
#[derive(Clone, Debug)]
pub struct DownloadResult {
    pub title: String,
    pub success: bool,
    pub error: Option<String>,
}

/// The invoker of the external retrieval tool. The library builds the
/// tool's argument vectors and settles each job's outcome; spawning the
/// subprocess and draining its streams is presentation-side work.
pub struct YtDlpDownloader;

// ---------------------------------------------------------------------------
// The argument vector of a download job
// ---------------------------------------------------------------------------

/// The tool's range-restriction syntax: `*MM:SS-MM:SS`, where minutes and
/// seconds are zero-padded to at least two digits.
pub open spec fn section_range_text(start: int, end: int) -> Seq<char> {
    seq!['*'] + two_digits(start / 60) + seq![':'] + two_digits(start % 60) + seq!['-']
        + two_digits(end / 60) + seq![':'] + two_digits(end % 60)
}

/// The output path template: a per-section file name when ranges are
/// selected, a plain per-item name otherwise.
pub open spec fn output_template_text(v: VideoInfo, c: DownloadConfig) -> Seq<char> {
    c.output_dir@ + seq!['/'] + (if v.selected_sections@.len() > 0 {
        "%(title)s - %(section_title)s.%(ext)s"@
    } else {
        "%(title)s.%(ext)s"@
    })
}

/// Arguments selecting the output format: audio extraction at maximum
/// quality, or container merging for video.
pub open spec fn format_args_spec(f: MediaFormat) -> Seq<Seq<char>> {
    match f {
        MediaFormat::Audio(codec) => seq![
            "-x"@,
            "--audio-format"@,
            audio_codec_name(codec),
            "--audio-quality"@,
            "0"@,
        ],
        MediaFormat::Video(codec) => seq!["--merge-output-format"@, video_codec_name(codec)],
    }
}

/// One range-restriction argument pair per selected section, in order.
pub open spec fn section_args_spec(ss: Seq<(u64, u64)>) -> Seq<Seq<char>>
    decreases ss.len(),
{
    if ss.len() == 0 {
        Seq::empty()
    } else {
        section_args_spec(ss.drop_last()) + seq![
            "--download-sections"@,
            section_range_text(ss.last().0 as int, ss.last().1 as int),
        ]
    }
}

pub open spec fn base_args_spec(v: VideoInfo, c: DownloadConfig) -> Seq<Seq<char>> {
    seq!["--no-warnings"@, "--newline"@, "--progress"@, "-o"@, output_template_text(v, c)]
}

/// The full argument vector of one download job.
pub open spec fn build_args_spec(v: VideoInfo, c: DownloadConfig) -> Seq<Seq<char>> {
    base_args_spec(v, c) + section_args_spec(v.selected_sections@) + format_args_spec(c.format)
        + seq![v.url@]
}

/// Renders one selected section as the tool's `*MM:SS-MM:SS` range syntax.
pub fn section_range_arg(start: u64, end: u64) -> (r: String)
    ensures
        r@ == section_range_text(start as int, end as int),
{
    let r = String::from_str("*").concat(u64_to_two_digits(start / 60).as_str()).concat(
        ":",
    ).concat(u64_to_two_digits(start % 60).as_str()).concat("-").concat(
        u64_to_two_digits(end / 60).as_str(),
    ).concat(":").concat(u64_to_two_digits(end % 60).as_str());
    proof {
        reveal_strlit("*");
        reveal_strlit(":");
        reveal_strlit("-");
        assert(("*"@) =~= seq!['*']);
        assert((":"@) =~= seq![':']);
        assert(("-"@) =~= seq!['-']);
        assert(r@ =~= section_range_text(start as int, end as int));
    }
    r
}

impl YtDlpDownloader {
    /// The argument vector handed to the external tool for one job: fixed
    /// progress flags, the output template, one range restriction per
    /// selected section, the format selection, and the item's locator.
    #[verifier::loop_isolation(false)]
    pub fn build_args(video: &VideoInfo, config: &DownloadConfig) -> (args: Vec<String>)
        ensures
            args@.map_values(|s: String| s@) == build_args_spec(*video, *config),
    {
        let mut args: Vec<String> = Vec::new();
        args.push(String::from_str("--no-warnings"));
        args.push(String::from_str("--newline"));
        args.push(String::from_str("--progress"));
        args.push(String::from_str("-o"));
        let template = if video.has_selected_sections() {
            String::from_str("%(title)s - %(section_title)s.%(ext)s")
        } else {
            String::from_str("%(title)s.%(ext)s")
        };
        let out = String::from_str(config.output_dir.as_str()).concat("/").concat(
            template.as_str(),
        );
        args.push(out);
        proof {
            reveal_strlit("/");
            assert(("/"@) =~= seq!['/']);
            assert(args@.map_values(|s: String| s@) =~~= base_args_spec(*video, *config));
        }
        let ghost ss = video.selected_sections@;
        let mut k: usize = 0;
        while k < video.selected_sections.len()
            invariant
                k <= ss.len(),
                args@.map_values(|s: String| s@) == base_args_spec(*video, *config)
                    + section_args_spec(ss.take(k as int)),
            decreases ss.len() - k,
        {
            let sec = video.selected_sections[k];
            args.push(String::from_str("--download-sections"));
            args.push(section_range_arg(sec.0, sec.1));
            proof {
                assert(ss.take(k + 1).drop_last() =~= ss.take(k as int));
                assert(ss.take(k + 1).len() == k + 1);
                assert(ss.take(k + 1).last() == ss[k as int]);
                assert(section_args_spec(ss.take(k + 1)) == section_args_spec(ss.take(k as int))
                    + seq![
                    "--download-sections"@,
                    section_range_text(ss[k as int].0 as int, ss[k as int].1 as int),
                ]);
                assert(args@.map_values(|s: String| s@) =~~= (base_args_spec(*video, *config)
                    + section_args_spec(ss.take(k as int))).push("--download-sections"@).push(
                    section_range_text(ss[k as int].0 as int, ss[k as int].1 as int),
                ));
                assert((base_args_spec(*video, *config) + section_args_spec(ss.take(k as int))).push(
                    "--download-sections"@,
                ).push(section_range_text(ss[k as int].0 as int, ss[k as int].1 as int)) =~~= base_args_spec(
                    *video,
                    *config,
                ) + section_args_spec(ss.take(k + 1)));
            }
            k += 1;
        }
        proof {
            assert(ss.take(ss.len() as int) =~= ss);
        }
        match config.format {
            MediaFormat::Audio(codec) => {
                args.push(String::from_str("-x"));
                args.push(String::from_str("--audio-format"));
                args.push(codec.name());
                args.push(String::from_str("--audio-quality"));
                args.push(String::from_str("0"));
            },
            MediaFormat::Video(codec) => {
                args.push(String::from_str("--merge-output-format"));
                args.push(codec.name());
            },
        }
        args.push(String::from_str(video.url.as_str()));
        proof {
            assert(args@.map_values(|s: String| s@) =~~= build_args_spec(*video, *config));
        }
        args
    }
}

// ---------------------------------------------------------------------------
// Progress extraction
// ---------------------------------------------------------------------------

/// Whether the tool's progress marker starts at position `i`. The marker
/// `[download]` is ten characters long.
pub open spec fn marker_at(s: Seq<char>, i: int) -> bool {
    0 <= i && i + 10 <= s.len() && s.subrange(i, i + 10) == "[download]"@
}

/// Whether a line carries the tool's progress marker at all.
pub open spec fn contains_marker(s: Seq<char>) -> bool {
    exists|i: int| #[trigger] marker_at(s, i)
}

/// Length of the whitespace-delimited token starting the sequence.
pub open spec fn token_end(s: Seq<char>) -> nat
    decreases s.len(),
{
    if s.len() == 0 || is_space(s[0]) {
        0
    } else {
        1 + token_end(s.drop_first())
    }
}

/// Pins `token_end` to a position established by a left-to-right scan.
pub proof fn lemma_token_end_at(s: Seq<char>, k: int)
    requires
        0 <= k <= s.len(),
        forall|i: int| 0 <= i < k ==> !is_space(#[trigger] s[i]),
        k == s.len() || is_space(s[k]),
    ensures
        token_end(s) == k,
    decreases s.len(),
{
    if s.len() == 0 {
    } else if k == 0 {
    } else {
        let s1 = s.drop_first();
        assert forall|i: int| 0 <= i < k - 1 implies !is_space(#[trigger] s1[i]) by {
            assert(s1[i] == s[i + 1]);
        }
        lemma_token_end_at(s1, k - 1);
    }
}

/// The fraction digits scaled to thousandths of a percent: up to the first
/// three digits count, further precision is dropped.
pub open spec fn frac_milli(f: Seq<char>) -> int {
    if f.len() >= 3 {
        dec_val(f.take(3))
    } else if f.len() == 2 {
        dec_val(f) * 10
    } else if f.len() == 1 {
        dec_val(f) * 100
    } else {
        0
    }
}

/// The value of a percentage token (without its `%`), in thousandths of a
/// percent: decimal digits, optionally followed by `.` and fraction
/// digits, at least one digit in all; `None` when the shape is different
/// or the whole part would overflow.
pub open spec fn pct_value(t: Seq<char>) -> Option<int> {
    let dot = find_char(t, '.') as int;
    let whole = t.take(dot);
    let frac = if dot < t.len() {
        t.skip(dot + 1)
    } else {
        Seq::<char>::empty()
    };
    if all_digits(whole) && all_digits(frac) && whole.len() + frac.len() > 0 && dec_val(whole)
        <= (u64::MAX as int - 999) / 1000 {
        Some(dec_val(whole) * 1000 + frac_milli(frac))
    } else {
        None
    }
}

/// The percentage of the first whitespace-delimited token ending in `%`;
/// that token decides alone — when its number does not parse, no later
/// token is tried.
pub open spec fn pct_from(s: Seq<char>) -> Option<int>
    decreases s.len(),
    via pct_from_decreases
{
    if s.len() == 0 {
        None
    } else if is_space(s[0]) {
        pct_from(s.drop_first())
    } else {
        let k = token_end(s) as int;
        let tok = s.take(k);
        if tok.len() > 0 && tok.last() == '%' {
            pct_value(tok.drop_last())
        } else {
            pct_from(s.skip(k))
        }
    }
}

proof fn lemma_token_end_le(s: Seq<char>)
    ensures
        token_end(s) <= s.len(),
    decreases s.len(),
{
    if s.len() > 0 && !is_space(s[0]) {
        lemma_token_end_le(s.drop_first());
    }
}

#[via_fn]
proof fn pct_from_decreases(s: Seq<char>) {
    if s.len() > 0 && !is_space(s[0]) {
        assert(token_end(s) == 1 + token_end(s.drop_first()));
        lemma_token_end_le(s.drop_first());
    }
}

/// The progress a line of the tool's live output reports, in thousandths
/// of a percent, or `None` when the line carries none.
pub open spec fn progress_of_line(s: Seq<char>) -> Option<int> {
    if contains_marker(s) {
        pct_from(s)
    } else {
        None
    }
}

/// Whether the progress marker starts at `i`.
fn is_marker_at(cs: &Vec<char>, i: usize) -> (r: bool)
    requires
        i + 10 <= cs@.len(),
    ensures
        r == marker_at(cs@, i as int),
{
    let n = cs.len();
    proof {
        reveal_strlit("[download]");
        assert(("[download]"@) =~= seq!['[', 'd', 'o', 'w', 'n', 'l', 'o', 'a', 'd', ']']);
        assert(i + 10 <= n);
    }
    let r = cs[i] == '[' && cs[i + 1] == 'd' && cs[i + 2] == 'o' && cs[i + 3] == 'w' && cs[i + 4]
        == 'n' && cs[i + 5] == 'l' && cs[i + 6] == 'o' && cs[i + 7] == 'a' && cs[i + 8] == 'd'
        && cs[i + 9] == ']';
    proof {
        let sub = cs@.subrange(i as int, i as int + 10);
        assert(sub.len() == 10);
        assert forall|k: int| 0 <= k < 10 implies #[trigger] sub[k] == cs@[i + k] by {}
        if r {
            assert(sub =~= "[download]"@);
        } else {
            if sub == "[download]"@ {
                assert(cs@[i as int] == '[');
                assert(cs@[i + 1] == 'd');
                assert(cs@[i + 2] == 'o');
                assert(cs@[i + 3] == 'w');
                assert(cs@[i + 4] == 'n');
                assert(cs@[i + 5] == 'l');
                assert(cs@[i + 6] == 'o');
                assert(cs@[i + 7] == 'a');
                assert(cs@[i + 8] == 'd');
                assert(cs@[i + 9] == ']');
            }
        }
    }
    r
}

/// Whether the line holds the progress marker anywhere.
#[verifier::loop_isolation(false)]
fn line_has_marker(cs: &Vec<char>) -> (r: bool)
    ensures
        r == contains_marker(cs@),
{
    let n = cs.len();
    if n < 10 {
        return false;
    }
    let mut i: usize = 0;
    while i <= n - 10
        invariant
            i <= n - 10 + 1,
            forall|j: int| 0 <= j < i ==> !marker_at(cs@, j),
        decreases n - i,
    {
        if is_marker_at(cs, i) {
            return true;
        }
        i += 1;
    }
    false
}

/// The value of `c` as a digit, on the promise that it is one.
fn digit_val_exec(c: char) -> (d: u64)
    requires
        is_digit(c),
    ensures
        d as int == digit_val(c),
{
    match digit_of(c) {
        Some(d) => d as u64,
        None => unreached(),
    }
}

/// Reads `cs[from..to]` the way `pct_value` does.
#[verifier::loop_isolation(false)]
#[verifier::rlimit(60)]
fn pct_value_exec(cs: &Vec<char>, from: usize, to: usize) -> (r: Option<u64>)
    requires
        from <= to <= cs@.len(),
    ensures
        match pct_value(cs@.subrange(from as int, to as int)) {
            Some(v) => r == Some(v as u64),
            None => r is None,
        },
{
    let ghost t = cs@.subrange(from as int, to as int);
    let mut d = from;
    while d < to && cs[d] != '.'
        invariant
            from <= d <= to,
            forall|i: int| from <= i < d ==> #[trigger] cs@[i] != '.',
        decreases to - d,
    {
        d += 1;
    }
    proof {
        lemma_find_char_at(t, '.', d - from);
    }
    let ghost whole = t.take(d - from);
    let ghost frac = if d < to {
        t.skip(d - from + 1)
    } else {
        Seq::<char>::empty()
    };
    proof {
        assert(whole =~= cs@.subrange(from as int, d as int));
        if d < to {
            assert(frac =~= cs@.subrange(d + 1, to as int));
        }
    }
    // whole part must be all digits and within bound
    let bound = (u64::MAX - 999) / 1000;
    let mut acc: u64 = 0;
    let mut j = from;
    while j < d
        invariant
            from <= j <= d,
            all_digits(whole.take(j - from)),
            acc as int == dec_val(whole.take(j - from)),
            acc <= bound,
        decreases d - j,
    {
        let c = cs[j];
        let dg = match digit_of(c) {
            Some(dg) => dg as u64,
            None => {
                proof {
                    assert(whole[j - from] == cs@[j as int]);
                    assert(!all_digits(whole));
                }
                return None;
            },
        };
        proof {
            assert(whole[j - from] == cs@[j as int]);
            assert(whole.take(j - from + 1).drop_last() =~= whole.take(j - from));
            assert(dec_val(whole.take(j - from + 1)) == acc as int * 10 + dg);
        }
        if acc > (bound - dg) / 10 {
            proof {
                assert(acc as int * 10 + dg > bound as int) by (nonlinear_arith)
                    requires
                        acc as int > (bound as int - dg) / 10,
                        0 <= dg <= 9,
                        acc as int >= 0;
                if all_digits(whole) {
                    lemma_dec_val_monotone(whole, j - from + 1);
                }
            }
            return None;
        }
        proof {
            assert(acc as int * 10 + dg <= bound as int) by (nonlinear_arith)
                requires
                    acc as int <= (bound as int - dg) / 10,
                    0 <= dg <= 9,
                    acc as int >= 0;
        }
        acc = acc * 10 + dg;
        j += 1;
    }
    proof {
        assert(whole.take(d - from) =~= whole);
    }
    // fraction part must be all digits
    let mut j2 = if d < to {
        d + 1
    } else {
        to
    };
    let ghost fstart = j2;
    while j2 < to
        invariant
            fstart <= j2 <= to,
            all_digits(frac.take(j2 - fstart)),
        decreases to - j2,
    {
        match digit_of(cs[j2]) {
            Some(_) => {
                proof {
                    assert(frac[j2 - fstart] == cs@[j2 as int]);
                    assert(frac.take(j2 - fstart + 1).drop_last() =~= frac.take(j2 - fstart));
                }
            },
            None => {
                proof {
                    assert(frac[j2 - fstart] == cs@[j2 as int]);
                    assert(!all_digits(frac));
                }
                return None;
            },
        }
        j2 += 1;
    }
    proof {
        assert(frac.take(to - fstart) =~= frac);
    }
    // nothing at all is not a number
    if d == from && (d >= to || to == d + 1) {
        return None;
    }
    // scale the first three fraction digits to thousandths
    let flen = if d < to {
        to - d - 1
    } else {
        0
    };
    proof {
        if flen >= 1 {
            assert(frac[0] == cs@[d + 1]);
        }
        if flen >= 2 {
            assert(frac[1] == cs@[d + 2]);
        }
        if flen >= 3 {
            assert(frac[2] == cs@[d + 3]);
        }
    }
    let fm: u64 = if flen == 0 {
        0
    } else if flen == 1 {
        100 * digit_val_exec(cs[d + 1])
    } else if flen == 2 {
        100 * digit_val_exec(cs[d + 1]) + 10 * digit_val_exec(cs[d + 2])
    } else {
        100 * digit_val_exec(cs[d + 1]) + 10 * digit_val_exec(cs[d + 2]) + digit_val_exec(
            cs[d + 3],
        )
    };
    proof {
        if flen >= 3 {
            assert(frac.take(3) =~= cs@.subrange(d + 1, d + 4));
            assert(frac.take(3).drop_last() =~= cs@.subrange(d + 1, d + 3));
            assert(frac.take(3).drop_last().drop_last() =~= cs@.subrange(d + 1, d + 2));
            assert(frac.take(3).drop_last().drop_last().drop_last() =~= Seq::<char>::empty());
        } else if flen == 2 {
            assert(frac.drop_last() =~= cs@.subrange(d + 1, d + 2));
            assert(frac.drop_last().drop_last() =~= Seq::<char>::empty());
        } else if flen == 1 {
            assert(frac.drop_last() =~= Seq::<char>::empty());
        }
        reveal_with_fuel(dec_val, 5);
        if flen == 0 {
            assert(frac.len() == 0);
            assert(fm as int == frac_milli(frac));
        } else if flen == 1 {
            assert(frac.len() == 1);
            assert(frac.last() == cs@[d + 1]);
            assert(dec_val(frac) == digit_val(cs@[d + 1]));
            assert(fm as int == frac_milli(frac));
        } else if flen == 2 {
            assert(frac.len() == 2);
            assert(frac.last() == cs@[d + 2]);
            assert(frac.drop_last().last() == cs@[d + 1]);
            assert(dec_val(frac) == digit_val(cs@[d + 1]) * 10 + digit_val(cs@[d + 2]));
            assert(fm as int == frac_milli(frac));
        } else {
            assert(frac.len() >= 3);
            assert(frac.take(3).last() == cs@[d + 3]);
            assert(frac.take(3).drop_last().last() == cs@[d + 2]);
            assert(frac.take(3).drop_last().drop_last().last() == cs@[d + 1]);
            assert(dec_val(frac.take(3)) == (digit_val(cs@[d + 1]) * 10 + digit_val(
                cs@[d + 2],
            )) * 10 + digit_val(cs@[d + 3]));
            assert(fm as int == frac_milli(frac));
        }
        assert(0 <= fm <= 999);
        assert(acc as int * 1000 <= u64::MAX as int - 999) by (nonlinear_arith)
            requires
                0 <= acc as int <= (u64::MAX as int - 999) / 1000;
    }
    Some(acc * 1000 + fm)
}

/// The progress percentage a live output line reports, in thousandths of
/// a percent (`45.2%` reads as 45200), or `None` for a line without the
/// progress marker or without a readable percentage token.
#[verifier::loop_isolation(false)]
#[verifier::rlimit(30)]
pub fn parse_progress_percent(line: &str) -> (r: Option<u64>)
    ensures
        match progress_of_line(line@) {
            Some(v) => r == Some(v as u64),
            None => r is None,
        },
{
    let cs = chars_of(line);
    if !line_has_marker(&cs) {
        return None;
    }
    let n = cs.len();
    let mut p: usize = 0;
    proof {
        assert(cs@.skip(0) =~= cs@);
    }
    while p < n
        invariant
            p <= n,
            pct_from(cs@) == pct_from(cs@.skip(p as int)),
        decreases n - p,
    {
        if is_space_exec(cs[p]) {
            proof {
                assert(cs@.skip(p as int).drop_first() =~= cs@.skip(p + 1));
            }
            p += 1;
        } else {
            let mut e = p + 1;
            while e < n && !is_space_exec(cs[e])
                invariant
                    p < e <= n,
                    forall|i: int| p <= i < e ==> !is_space(#[trigger] cs@[i]),
                decreases n - e,
            {
                e += 1;
            }
            let ghost sp = cs@.skip(p as int);
            proof {
                assert forall|i: int| 0 <= i < e - p implies !is_space(#[trigger] sp[i]) by {
                    assert(sp[i] == cs@[p + i]);
                }
                if e < n {
                    assert(sp[e - p] == cs@[e as int]);
                }
                lemma_token_end_at(sp, e - p);
            }
            let ghost tok = sp.take(e - p);
            if cs[e - 1] == '%' {
                proof {
                    assert(tok.last() == cs@[e - 1]);
                    assert(tok.drop_last() =~= cs@.subrange(p as int, e - 1));
                    assert(pct_from(sp) == pct_value(cs@.subrange(p as int, e - 1)));
                }
                return pct_value_exec(&cs, p, e - 1);
            }
            proof {
                assert(tok.last() == cs@[e - 1]);
                assert(sp.skip(e - p) =~= cs@.skip(e as int));
                assert(pct_from(sp) == pct_from(cs@.skip(e as int)));
            }
            p = e;
        }
    }
    proof {
        assert(cs@.skip(n as int) =~= Seq::<char>::empty());
    }
    None
}

// ---------------------------------------------------------------------------
// Failure-reason selection and job settlement
// ---------------------------------------------------------------------------

/// Whether a diagnostic line begins with the tool's error marker.
pub open spec fn is_error_line(l: Seq<char>) -> bool {
    l.len() >= 6 && l.subrange(0, 6) == "ERROR:"@
}

/// The last diagnostic line that begins with the error marker, if any.
pub open spec fn last_error_line(ls: Seq<Seq<char>>) -> Option<Seq<char>>
    decreases ls.len(),
{
    if ls.len() == 0 {
        None
    } else if is_error_line(ls.last()) {
        Some(ls.last())
    } else {
        last_error_line(ls.drop_last())
    }
}

/// Whether `l` begins with the tool's `ERROR:` marker.
fn starts_with_error(l: &str) -> (r: bool)
    ensures
        r == is_error_line(l@),
{
    proof {
        reveal_strlit("ERROR:");
        assert(("ERROR:"@) =~= seq!['E', 'R', 'R', 'O', 'R', ':']);
    }
    let n = l.unicode_len();
    if n < 6 {
        return false;
    }
    let r = l.get_char(0) == 'E' && l.get_char(1) == 'R' && l.get_char(2) == 'R' && l.get_char(3)
        == 'O' && l.get_char(4) == 'R' && l.get_char(5) == ':';
    proof {
        let sub = l@.subrange(0, 6);
        assert forall|k: int| 0 <= k < 6 implies #[trigger] sub[k] == l@[k] by {}
        if r {
            assert(sub =~= "ERROR:"@);
        } else {
            if sub == "ERROR:"@ {
                assert(l@[0] == 'E');
                assert(l@[1] == 'R');
                assert(l@[2] == 'R');
                assert(l@[3] == 'O');
                assert(l@[4] == 'R');
                assert(l@[5] == ':');
            }
        }
    }
    r
}

/// The most useful failure reason in a job's captured diagnostics: the
/// last line that begins with the error marker wins; earlier ones lose.
#[verifier::loop_isolation(false)]
pub fn failure_reason(stderr_lines: &Vec<String>) -> (r: Option<String>)
    ensures
        match r {
            Some(l) => last_error_line(stderr_lines@.map_values(|s: String| s@)) == Some(l@),
            None => last_error_line(stderr_lines@.map_values(|s: String| s@)) is None,
        },
{
    let ghost ls = stderr_lines@.map_values(|s: String| s@);
    let mut k = stderr_lines.len();
    proof {
        assert(ls.take(k as int) =~= ls);
    }
    while k > 0
        invariant
            k <= ls.len(),
            ls == stderr_lines@.map_values(|s: String| s@),
            last_error_line(ls) == last_error_line(ls.take(k as int)),
        decreases k,
    {
        k -= 1;
        if starts_with_error(stderr_lines[k].as_str()) {
            proof {
                assert(ls.take(k + 1).last() == ls[k as int]);
                assert(last_error_line(ls.take(k + 1)) == Some(ls[k as int]));
            }
            return Some(stderr_lines[k].clone());
        }
        proof {
            assert(ls.take(k + 1).last() == ls[k as int]);
            assert(ls.take(k + 1).drop_last() =~= ls.take(k as int));
        }
    }
    proof {
        assert(ls.take(0) =~= Seq::<Seq<char>>::empty());
    }
    None
}

/// Settles one job from its observed exit and captured diagnostics: a
/// zero exit succeeds with the item's title and no error; a non-zero exit
/// fails with the last error-marked diagnostic line, or a generic reason
/// when none was seen. The failure is the job's own and never the run's.
pub fn download_outcome(title: &String, exit_ok: bool, stderr_lines: &Vec<String>) -> (r: Result<
    DownloadResult,
    AppError,
>)
    ensures
        exit_ok ==> (r matches Ok(d) && d.title@ == title@ && d.success && d.error is None),
        !exit_ok ==> (r matches Err(AppError::DownloadFailed { title: t, reason }) && t@ == title@
            && (match last_error_line(stderr_lines@.map_values(|s: String| s@)) {
            Some(l) => reason@ == l,
            None => reason@ == "yt-dlp exited with non-zero status"@,
        })),
{
    if exit_ok {
        Ok(DownloadResult { title: title.clone(), success: true, error: None })
    } else {
        let reason = match failure_reason(stderr_lines) {
            Some(l) => l,
            None => String::from_str("yt-dlp exited with non-zero status"),
        };
        Err(AppError::DownloadFailed { title: title.clone(), reason })
    }
}

} // verus!

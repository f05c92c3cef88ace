//! The report: its rows, its overall rating and its JSON form.
use vstd::prelude::*;

use crate::json::{
    false_text, is_json_space, json_document, lemma_skip_space_prefix, parse_members,
    parse_string, parse_string_body, parse_value, parse_elements, skip_space, true_text, unescape, JsonValue,
};
use crate::ratings::Rating;
use crate::result::TestResult;

verus! {

/// How many results are failures.
pub open spec fn failed_count(results: Seq<TestResult>) -> nat
    decreases results.len(),
{
    if results.len() == 0 {
        0
    } else {
        failed_count(results.drop_last()) + if results.last().success {
            0nat
        } else {
            1nat
        }
    }
}

/// How many results are successes.
pub open spec fn succeeded_count(results: Seq<TestResult>) -> nat
    decreases results.len(),
{
    if results.len() == 0 {
        0
    } else {
        succeeded_count(results.drop_last()) + if results.last().success {
            1nat
        } else {
            0nat
        }
    }
}

/// The rating of a whole run: none for an empty run, `Yum` when every test
/// succeeded, `Yuck` when every test failed, `Meh` otherwise.
pub open spec fn overall(results: Seq<TestResult>) -> Option<Rating> {
    if results.len() == 0 {
        None
    } else if failed_count(results) == 0 {
        Some(Rating::Yum)
    } else if failed_count(results) < results.len() {
        Some(Rating::Meh)
    } else {
        Some(Rating::Yuck)
    }
}

/// Every result is a success or a failure.
pub proof fn lemma_counts_add_up(results: Seq<TestResult>)
    ensures
        succeeded_count(results) + failed_count(results) == results.len(),
    decreases results.len(),
{
    if results.len() > 0 {
        lemma_counts_add_up(results.drop_last());
    }
}

/// No failure means every result succeeded; as many failures as results
/// means every result failed; and there are never more failures than
/// results.
pub proof fn lemma_failed_count_meaning(results: Seq<TestResult>)
    ensures
        failed_count(results) <= results.len(),
        failed_count(results) == 0 <==> forall|i: int|
            0 <= i < results.len() ==> (#[trigger] results[i]).success,
        failed_count(results) == results.len() <==> forall|i: int|
            0 <= i < results.len() ==> !(#[trigger] results[i]).success,
    decreases results.len(),
{
    if results.len() > 0 {
        let front = results.drop_last();
        lemma_failed_count_meaning(front);
        let n = results.len() as int;
        assert forall|i: int| 0 <= i < front.len() implies #[trigger] front[i] == results[i] by {}
        if failed_count(results) == 0 {
            assert forall|i: int| 0 <= i < n implies (#[trigger] results[i]).success by {
                if i < n - 1 {
                    assert(front[i] == results[i]);
                }
            }
        }
        if forall|i: int| 0 <= i < n ==> (#[trigger] results[i]).success {
            assert forall|i: int| 0 <= i < front.len() implies (#[trigger] front[i]).success by {
                assert(results[i].success);
            }
            assert(results[n - 1].success);
        }
        if failed_count(results) == n {
            assert forall|i: int| 0 <= i < n implies !(#[trigger] results[i]).success by {
                if i < n - 1 {
                    assert(front[i] == results[i]);
                }
            }
        }
        if forall|i: int| 0 <= i < n ==> !(#[trigger] results[i]).success {
            assert forall|i: int| 0 <= i < front.len() implies !(#[trigger] front[i]).success by {
                assert(!results[i].success);
            }
            assert(!results[n - 1].success);
        }
    }
}

/// What the overall rating of a run means: none for an empty run, `Yum`
/// exactly when every result succeeded, `Yuck` exactly when every result
/// failed, and `Meh` exactly when some succeeded and some failed.
pub proof fn lemma_overall_meaning(results: Seq<TestResult>)
    ensures
        overall(results) is None <==> results.len() == 0,
        overall(results) == Some(Rating::Yum) <==> (results.len() > 0 && forall|i: int|
            0 <= i < results.len() ==> (#[trigger] results[i]).success),
        overall(results) == Some(Rating::Yuck) <==> (results.len() > 0 && forall|i: int|
            0 <= i < results.len() ==> !(#[trigger] results[i]).success),
        overall(results) == Some(Rating::Meh) <==> ((exists|i: int|
            0 <= i < results.len() && (#[trigger] results[i]).success) && (exists|j: int|
            0 <= j < results.len() && !(#[trigger] results[j]).success)),
{
    lemma_failed_count_meaning(results);
    let n = results.len() as int;
    if n > 0 {
        if failed_count(results) == 0 {
            assert(results[0].success);
        } else if failed_count(results) < n {
            assert(!(forall|i: int| 0 <= i < n ==> (#[trigger] results[i]).success));
            assert(!(forall|i: int| 0 <= i < n ==> !(#[trigger] results[i]).success));
        } else {
            assert(!results[0].success);
        }
    }
}

/// When every result is a failure, a nonempty run rates `Yuck`.
pub proof fn lemma_all_failed_rates_yuck(results: Seq<TestResult>)
    requires
        results.len() > 0,
        forall|i: int| 0 <= i < results.len() ==> !(#[trigger] results[i]).success,
    ensures
        failed_count(results) == results.len(),
        overall(results) == Some(Rating::Yuck),
{
    lemma_all_failed_count(results);
}

proof fn lemma_all_failed_count(results: Seq<TestResult>)
    requires
        forall|i: int| 0 <= i < results.len() ==> !(#[trigger] results[i]).success,
    ensures
        failed_count(results) == results.len(),
    decreases results.len(),
{
    if results.len() > 0 {
        let rest = results.drop_last();
        assert forall|i: int| 0 <= i < rest.len() implies !(#[trigger] rest[i]).success by {
            assert(rest[i] == results[i]);
        }
        lemma_all_failed_count(rest);
        assert(!results[results.len() - 1].success);
    }
}

/// The failure count of every prefix of the results, checked one by one.
fn count_failed(results: &[TestResult]) -> (r: usize)
    ensures
        r == failed_count(results@),
{
    let mut count: usize = 0;
    let mut i: usize = 0;
    assert(results@.take(0) =~= Seq::<TestResult>::empty());
    while i < results.len()
        invariant
            i <= results@.len(),
            count == failed_count(results@.take(i as int)),
            count <= i,
        decreases results.len() - i,
    {
        assert(results@.take(i + 1).drop_last() =~= results@.take(i as int));
        if !results[i].success {
            count = count + 1;
        }
        i = i + 1;
    }
    assert(results@.take(results@.len() as int) =~= results@);
    count
}

/// How many of the results are successes.
pub fn successful_count(results: &[TestResult]) -> (r: usize)
    ensures
        r == succeeded_count(results@),
        r <= results@.len(),
        r == results@.len() <==> forall|i: int|
            0 <= i < results@.len() ==> (#[trigger] results@[i]).success,
        r == 0 <==> forall|i: int| 0 <= i < results@.len() ==> !(#[trigger] results@[i]).success,
{
    proof {
        lemma_counts_add_up(results@);
        lemma_failed_count_meaning(results@);
    }
    let mut count: usize = 0;
    let mut i: usize = 0;
    assert(results@.take(0) =~= Seq::<TestResult>::empty());
    while i < results.len()
        invariant
            i <= results@.len(),
            count == succeeded_count(results@.take(i as int)),
            count <= i,
        decreases results.len() - i,
    {
        assert(results@.take(i + 1).drop_last() =~= results@.take(i as int));
        if results[i].success {
            count = count + 1;
        }
        i = i + 1;
    }
    assert(results@.take(results@.len() as int) =~= results@);
    count
}

/// Whether any of the results is a failure.
pub fn any_failed(results: &[TestResult]) -> (r: bool)
    ensures
        r == (failed_count(results@) > 0),
        r <==> exists|i: int| 0 <= i < results@.len() && !(#[trigger] results@[i]).success,
{
    proof {
        lemma_failed_count_meaning(results@);
    }
    count_failed(results) > 0
}

/// The rating of a whole run.
pub fn overall_rating(results: &[TestResult]) -> (r: Option<Rating>)
    ensures
        r == overall(results@),
        r is None <==> results@.len() == 0,
        r == Some(Rating::Yum) <==> (results@.len() > 0 && forall|i: int|
            0 <= i < results@.len() ==> (#[trigger] results@[i]).success),
        r == Some(Rating::Yuck) <==> (results@.len() > 0 && forall|i: int|
            0 <= i < results@.len() ==> !(#[trigger] results@[i]).success),
        r == Some(Rating::Meh) <==> ((exists|i: int|
            0 <= i < results@.len() && (#[trigger] results@[i]).success) && (exists|j: int|
            0 <= j < results@.len() && !(#[trigger] results@[j]).success)),
{
    proof {
        lemma_overall_meaning(results@);
    }
    if results.len() == 0 {
        return None;
    }
    let failed = count_failed(results);
    if failed == 0 {
        return Some(Rating::Yum);
    }
    if failed < results.len() {
        return Some(Rating::Meh);
    }
    Some(Rating::Yuck)
}

/// A text cut to at most `width` characters: kept whole when it fits, or
/// else its first `width - 3` characters (none when `width` is below 3)
/// followed by an ellipsis of three dots.
pub open spec fn truncated(s: Seq<char>, width: nat) -> Seq<char> {
    if s.len() <= width {
        s
    } else {
        s.take(if width >= 3 {
            width - 3
        } else {
            0
        }) + "..."@
    }
}

/// Cuts a text to the given width, marking the cut with an ellipsis.
pub fn truncate(value: &str, width: usize) -> (r: String)
    ensures
        r@ == truncated(value@, width as nat),
        value@.len() <= width ==> r@ == value@,
        width >= 3 ==> r@.len() <= width,
        value@.len() > width ==> {
            let keep = if width >= 3 {
                width - 3
            } else {
                0
            };
            &&& r@.len() == keep + 3
            &&& forall|i: int| 0 <= i < keep ==> #[trigger] r@[i] == value@[i]
            &&& forall|i: int| keep <= i < keep + 3 ==> #[trigger] r@[i] == '.'
        },
{
    proof {
        lemma_truncated_fits(value@, width as nat);
        reveal_strlit("...");
    }
    let n = value.unicode_len();
    if n <= width {
        return String::from_str(value);
    }
    let keep: usize = if width >= 3 {
        width - 3
    } else {
        0
    };
    let mut r = String::from_str(value.substring_char(0, keep));
    r.append("...");
    r
}

/// A cut text fits its width, whenever the width leaves room for the
/// ellipsis, and a text that fits is kept whole.
pub proof fn lemma_truncated_fits(s: Seq<char>, width: nat)
    ensures
        width >= 3 ==> truncated(s, width).len() <= width,
        s.len() <= width ==> truncated(s, width) == s,
        s.len() > width ==> truncated(s, width).len() == if width >= 3 {
            width
        } else {
            3
        },
{
    reveal_strlit("...");
}

/// A run of spaces.
pub open spec fn spaces(count: nat) -> Seq<char> {
    Seq::new(count, |i: int| ' ')
}

/// A text padded on the right with spaces to at least `width` characters,
/// as the format `{:<width}` lays it out.
pub open spec fn padded(s: Seq<char>, width: nat) -> Seq<char> {
    if s.len() >= width {
        s
    } else {
        s + spaces((width - s.len()) as nat)
    }
}

/// A padded text is as long as the width, or as the text if it is longer,
/// and starts with the text.
pub proof fn lemma_padded_length(s: Seq<char>, width: nat)
    ensures
        padded(s, width).len() == if s.len() >= width {
            s.len()
        } else {
            width
        },
        padded(s, width).take(s.len() as int) == s,
{
    assert(padded(s, width).take(s.len() as int) =~= s);
}

/// Pads a text on the right with spaces to at least `width` characters.
pub fn pad_right(value: &str, width: usize) -> (r: String)
    ensures
        r@ == padded(value@, width as nat),
        r@.len() == if value@.len() >= width {
            value@.len()
        } else {
            width as nat
        },
        forall|i: int| 0 <= i < value@.len() ==> #[trigger] r@[i] == value@[i],
        forall|i: int| value@.len() <= i < r@.len() ==> #[trigger] r@[i] == ' ',
{
    proof {
        lemma_padded_length(value@, width as nat);
    }
    let n = value.unicode_len();
    let mut r = String::from_str(value);
    if n >= width {
        return r;
    }
    let mut k: usize = n;
    assert(spaces(0) =~= Seq::<char>::empty());
    assert(r@ =~= value@ + spaces(0));
    while k < width
        invariant
            n == value@.len(),
            n <= k <= width,
            r@ == value@ + spaces((k - n) as nat),
        decreases width - k,
    {
        r.append(" ");
        proof {
            reveal_strlit(" ");
            assert(spaces((k + 1 - n) as nat) =~= spaces((k - n) as nat).push(' '));
            assert(r@ =~= value@ + spaces((k + 1 - n) as nat));
        }
        k = k + 1;
    }
    r
}

/// Width of the report's first column.
pub const LOCATION_WIDTH: usize = 28;

/// Width of the report's second column.
pub const STATUS_WIDTH: usize = 10;

/// A row of the report: the location padded to 28 characters, the status
/// padded to 10, and the statistics, separated by single spaces.
pub open spec fn report_row(location: Seq<char>, status: Seq<char>, statistics: Seq<char>) -> Seq<
    char,
> {
    padded(location, LOCATION_WIDTH as nat) + " "@ + padded(status, STATUS_WIDTH as nat) + " "@
        + statistics
}

/// Lays out one row of the report, the header row included.
pub fn format_row(location: &str, status: &str, statistics: &str) -> (r: String)
    ensures
        r@ == report_row(location@, status@, statistics@),
{
    let mut r = pad_right(location, LOCATION_WIDTH);
    r.append(" ");
    let status_cell = pad_right(status, STATUS_WIDTH);
    r.append(status_cell.as_str());
    r.append(" ");
    r.append(statistics);
    r
}

/// The report's row for one result, its name cut to the first column.
pub fn format_result(result: &TestResult) -> (r: String)
    ensures
        r@ == report_row(
            truncated(result.name@, LOCATION_WIDTH as nat),
            result.rating@,
            result.statistics@,
        ),
{
    let name = truncate(result.name.as_str(), LOCATION_WIDTH);
    format_row(name.as_str(), result.rating.as_str(), result.statistics.as_str())
}

/// How a character is written inside a JSON string.
pub open spec fn escape_char(c: char) -> Seq<char> {
    if c == '\\' {
        seq!['\\', '\\']
    } else if c == '"' {
        seq!['\\', '"']
    } else if c == '\n' {
        seq!['\\', 'n']
    } else if c == '\r' {
        seq!['\\', 'r']
    } else if c == '\t' {
        seq!['\\', 't']
    } else {
        seq![c]
    }
}

/// A text written inside a JSON string: backslashes, double quotes, line
/// feeds, carriage returns and tabs escaped with a backslash.
pub open spec fn escaped(s: Seq<char>) -> Seq<char>
    decreases s.len(),
{
    if s.len() == 0 {
        Seq::empty()
    } else {
        escaped(s.drop_last()) + escape_char(s.last())
    }
}

/// Escapes a text for a JSON string.
pub fn escape_json(value: &str) -> (r: String)
    ensures
        r@ == escaped(value@),
{
    let n = value.unicode_len();
    let mut r = String::new();
    let mut i: usize = 0;
    assert(value@.take(0) =~= Seq::<char>::empty());
    while i < n
        invariant
            n == value@.len(),
            i <= n,
            r@ == escaped(value@.take(i as int)),
        decreases n - i,
    {
        let c = value.get_char(i);
        proof {
            assert(value@.take(i + 1).drop_last() =~= value@.take(i as int));
            assert(value@.take(i + 1).last() == c);
        }
        if c == '\\' {
            r.append("\\\\");
            proof {
                reveal_strlit("\\\\");
            }
        } else if c == '"' {
            r.append("\\\"");
            proof {
                reveal_strlit("\\\"");
            }
        } else if c == '\n' {
            r.append("\\n");
            proof {
                reveal_strlit("\\n");
            }
        } else if c == '\r' {
            r.append("\\r");
            proof {
                reveal_strlit("\\r");
            }
        } else if c == '\t' {
            r.append("\\t");
            proof {
                reveal_strlit("\\t");
            }
        } else {
            let piece = value.substring_char(i, i + 1);
            assert(piece@ =~= seq![c]);
            r.append(piece);
        }
        assert(r@ =~= escaped(value@.take(i + 1)));
        i = i + 1;
    }
    assert(value@.take(n as int) =~= value@);
    r
}

/// An escaped text holds no line feed, carriage return or tab.
pub proof fn lemma_escaped_has_no_control(s: Seq<char>)
    ensures
        forall|k: int|
            0 <= k < escaped(s).len() ==> {
                let c = #[trigger] escaped(s)[k];
                c != '\n' && c != '\r' && c != '\t'
            },
    decreases s.len(),
{
    if s.len() > 0 {
        lemma_escaped_has_no_control(s.drop_last());
        let head = escaped(s.drop_last());
        let tail = escape_char(s.last());
        assert forall|k: int| 0 <= k < escaped(s).len() implies {
            let c = #[trigger] escaped(s)[k];
            c != '\n' && c != '\r' && c != '\t'
        } by {
            if k < head.len() {
                assert(escaped(s)[k] == head[k]);
            } else {
                assert(escaped(s)[k] == tail[k - head.len()]);
            }
        }
    }
}

/// One string field of a JSON object: its key, its escaped value in
/// quotes, and the comma and line feed after it.
pub open spec fn json_field(key: Seq<char>, value: Seq<char>) -> Seq<char> {
    "    \""@ + key + "\": \""@ + escaped(value) + "\",\n"@
}

/// The JSON object of one result, followed by a comma unless it is the last.
#[verifier::opaque]
pub open spec fn json_entry(result: TestResult, last: bool) -> Seq<char> {
    "  {\n"@ + json_field("name"@, result.name@) + json_field("rating"@, result.rating@)
        + json_field("statistics"@, result.statistics@) + "    \"success\": "@ + (
    if result.success {
        "true"@
    } else {
        "false"@
    }) + "\n"@ + (if last {
        "  }\n"@
    } else {
        "  },\n"@
    })
}

/// The JSON objects of the first `count` results.
pub open spec fn json_entries(results: Seq<TestResult>, count: int) -> Seq<char>
    decreases count,
{
    if count <= 0 {
        Seq::empty()
    } else {
        json_entries(results, count - 1) + json_entry(
            results[count - 1],
            count == results.len(),
        )
    }
}

/// The results as a JSON array of objects with their name, rating,
/// statistics and success.
pub open spec fn results_json(results: Seq<TestResult>) -> Seq<char> {
    "[\n"@ + json_entries(results, results.len() as int) + "]"@
}

fn append_json_field(out: &mut String, key: &str, value: &str)
    ensures
        final(out)@ == old(out)@ + json_field(key@, value@),
{
    let ghost start = out@;
    out.append("    \"");
    out.append(key);
    out.append("\": \"");
    let escaped_value = escape_json(value);
    out.append(escaped_value.as_str());
    out.append("\",\n");
    assert(out@ =~= start + json_field(key@, value@));
}

fn append_json_entry(out: &mut String, result: &TestResult, last: bool)
    ensures
        final(out)@ == old(out)@ + json_entry(*result, last),
{
    let ghost start = out@;
    reveal(json_entry);
    out.append("  {\n");
    append_json_field(out, "name", result.name.as_str());
    append_json_field(out, "rating", result.rating.as_str());
    append_json_field(out, "statistics", result.statistics.as_str());
    out.append("    \"success\": ");
    if result.success {
        out.append("true");
    } else {
        out.append("false");
    }
    out.append("\n");
    if last {
        out.append("  }\n");
    } else {
        out.append("  },\n");
    }
    assert(out@ =~= start + json_entry(*result, last));
}

/// Writes the results as a JSON array.
pub fn serde_json_output(results: &[TestResult]) -> (r: String)
    ensures
        r@ == results_json(results@),
{
    let n = results.len();
    let mut out = String::from_str("[\n");
    let mut i: usize = 0;
    assert(out@ =~= "[\n"@ + json_entries(results@, 0));
    while i < n
        invariant
            n == results@.len(),
            i <= n,
            out@ == "[\n"@ + json_entries(results@, i as int),
        decreases n - i,
    {
        append_json_entry(&mut out, &results[i], i + 1 == n);
        assert(out@ =~= "[\n"@ + json_entries(results@, i + 1));
        i = i + 1;
    }
    out.append("]");
    out
}

/// Whether JSON can hold a text as it is escaped here: it has no control
/// character other than line feed, carriage return and tab, which are
/// escaped. Other control characters are written as they are, and JSON
/// does not allow them in a string.
pub open spec fn json_safe(s: Seq<char>) -> bool {
    forall|i: int|
        0 <= i < s.len() ==> (#[trigger] s[i] as u32) >= 0x20 || s[i] == '\n' || s[i] == '\r'
            || s[i] == '\t'
}

/// A text in quotes, escaped.
pub open spec fn quoted(s: Seq<char>) -> Seq<char> {
    seq!['"'] + escaped(s) + seq!['"']
}

/// Escaping a text escapes its first character and then the rest.
pub proof fn lemma_escaped_prepend(c: char, s: Seq<char>)
    ensures
        escaped(seq![c] + s) == escape_char(c) + escaped(s),
    decreases s.len(),
{
    if s.len() == 0 {
        assert(seq![c] + s =~= seq![c]);
        let one = seq![c];
        assert(one.drop_last() =~= Seq::<char>::empty());
        assert(one.last() == c);
        assert(escaped(one.drop_last()) == Seq::<char>::empty());
        assert(escaped(one) == escaped(one.drop_last()) + escape_char(c));
        assert(escaped(one) =~= escape_char(c));
    } else {
        let whole = seq![c] + s;
        assert(whole.drop_last() =~= seq![c] + s.drop_last());
        assert(whole.last() == s.last());
        lemma_escaped_prepend(c, s.drop_last());
        assert(escaped(whole) =~= escape_char(c) + escaped(s));
    }
}

/// A text with no character that needs escaping is written as it is.
pub proof fn lemma_escaped_plain(s: Seq<char>)
    requires
        forall|i: int|
            0 <= i < s.len() ==> #[trigger] s[i] != '\\' && s[i] != '"' && s[i] != '\n' && s[i]
                != '\r' && s[i] != '\t',
    ensures
        escaped(s) == s,
    decreases s.len(),
{
    if s.len() > 0 {
        let front = s.drop_last();
        assert forall|i: int| 0 <= i < front.len() implies #[trigger] front[i] != '\\' && front[i]
            != '"' && front[i] != '\n' && front[i] != '\r' && front[i] != '\t' by {
            assert(front[i] == s[i]);
        }
        lemma_escaped_plain(front);
        assert(s.last() == s[s.len() - 1]);
        assert(escaped(s) =~= s);
    }
}

/// Reading an escaped text back, up to its closing quote, gives the text.
pub proof fn lemma_read_escaped(s: Seq<char>, rest: Seq<char>)
    requires
        json_safe(s),
    ensures
        parse_string_body(escaped(s) + seq!['"'] + rest) == Some((s, rest)),
    decreases s.len(),
{
    let text = escaped(s) + seq!['"'] + rest;
    if s.len() == 0 {
        assert(text =~= seq!['"'] + rest);
        assert(text[0] == '"');
        assert(text.drop_first() =~= rest);
    } else {
        let c = s[0];
        let tail = s.drop_first();
        assert(s =~= seq![c] + tail);
        lemma_escaped_prepend(c, tail);
        assert forall|i: int| 0 <= i < tail.len() implies (#[trigger] tail[i] as u32) >= 0x20
            || tail[i] == '\n' || tail[i] == '\r' || tail[i] == '\t' by {
            assert(tail[i] == s[i + 1]);
        }
        lemma_read_escaped(tail, rest);
        let after = escaped(tail) + seq!['"'] + rest;
        assert(text =~= escape_char(c) + after);
        if c == '\\' || c == '"' || c == '\n' || c == '\r' || c == '\t' {
            assert(text[0] == '\\');
            assert(text[1] == escape_char(c)[1]);
            assert(text.skip(2) =~= after);
            assert(unescape(text[1]) == Some(c));
        } else {
            assert(text[0] == c);
            assert(text.drop_first() =~= after);
            assert((c as u32) >= 0x20);
        }
        assert(seq![c] + tail =~= s);
    }
}

/// Reading a quoted, escaped text gives the text.
pub proof fn lemma_read_quoted(s: Seq<char>, rest: Seq<char>)
    requires
        json_safe(s),
    ensures
        parse_string(quoted(s) + rest) == Some((s, rest)),
{
    let text = quoted(s) + rest;
    assert(text[0] == '"');
    assert(text.drop_first() =~= escaped(s) + seq!['"'] + rest);
    lemma_read_escaped(s, rest);
}

/// The letters of a boolean in JSON.
pub open spec fn bool_text(b: bool) -> Seq<char> {
    if b {
        true_text()
    } else {
        false_text()
    }
}

/// A string member as an entry writes it, followed by the indentation of
/// the next member.
pub open spec fn member_text(key: Seq<char>, value: Seq<char>) -> Seq<char> {
    quoted(key) + seq![':', ' '] + quoted(value) + seq![',', '\n'] + spaces(4)
}

/// The last member of an entry, a boolean, with the object's closing brace.
pub open spec fn last_member_text(key: Seq<char>, b: bool) -> Seq<char> {
    quoted(key) + seq![':', ' '] + bool_text(b) + seq!['\n'] + spaces(2) + seq!['}']
}

proof fn lemma_spaces_are_space(n: nat)
    ensures
        forall|i: int| 0 <= i < spaces(n).len() ==> is_json_space(#[trigger] spaces(n)[i]),
{
}

/// Reading a string member and the members after it.
proof fn lemma_read_member(key: Seq<char>, value: Seq<char>, more: Seq<char>, depth: nat)
    requires
        json_safe(key),
        json_safe(value),
        more.len() > 0,
        more[0] == '"',
    ensures
        parse_members(member_text(key, value) + more, depth) == match parse_members(more, depth) {
            None => None,
            Some(p) => Some((seq![(key, JsonValue::Str(value))] + p.0, p.1)),
        },
{
    let s = member_text(key, value) + more;
    let r3 = seq![',', '\n'] + spaces(4) + more;
    let r2 = quoted(value) + r3;
    let r1 = seq![':', ' '] + r2;
    assert(s =~= quoted(key) + r1);
    lemma_read_quoted(key, r1);
    assert(skip_space(r1) == r1) by {
        assert(r1[0] == ':');
    }
    assert(r1.drop_first() =~= seq![' '] + r2);
    lemma_skip_space_prefix(seq![' '], r2);
    assert(r2[0] == '"');
    assert(skip_space(r2) == r2);
    lemma_read_quoted(value, r3);
    assert(parse_value(r2, depth) == Some((JsonValue::Str(value), r3)));
    assert(skip_space(r3) == r3) by {
        assert(r3[0] == ',');
    }
    assert(r3.drop_first() =~= (seq!['\n'] + spaces(4)) + more);
    lemma_spaces_are_space(4);
    assert forall|i: int| 0 <= i < (seq!['\n'] + spaces(4)).len() implies is_json_space(
        #[trigger] (seq!['\n'] + spaces(4))[i],
    ) by {
        if i > 0 {
            assert((seq!['\n'] + spaces(4))[i] == spaces(4)[i - 1]);
        }
    }
    lemma_skip_space_prefix(seq!['\n'] + spaces(4), more);
    assert(skip_space(more) == more);
    assert(more.len() < s.len());
}

/// Reading the last member, a boolean, and the closing brace.
proof fn lemma_read_last_member(key: Seq<char>, b: bool, rest: Seq<char>, depth: nat)
    requires
        json_safe(key),
    ensures
        parse_members(last_member_text(key, b) + rest, depth) == Some(
            (seq![(key, JsonValue::Bool(b))], rest),
        ),
{
    let s = last_member_text(key, b) + rest;
    let r3 = seq!['\n'] + spaces(2) + seq!['}'] + rest;
    let r2 = bool_text(b) + r3;
    let r1 = seq![':', ' '] + r2;
    assert(s =~= quoted(key) + r1);
    lemma_read_quoted(key, r1);
    assert(skip_space(r1) == r1) by {
        assert(r1[0] == ':');
    }
    assert(r1.drop_first() =~= seq![' '] + r2);
    lemma_skip_space_prefix(seq![' '], r2);
    assert(skip_space(r2) == r2) by {
        assert(r2[0] == bool_text(b)[0]);
    }
    if b {
        assert(r2.take(4) =~= true_text());
        assert(r2.skip(4) =~= r3);
    } else {
        assert(r2.take(4) != true_text()) by {
            assert(r2.take(4)[0] == 'f');
        }
        assert(r2.take(5) =~= false_text());
        assert(r2.skip(5) =~= r3);
    }
    assert(parse_value(r2, depth) == Some((JsonValue::Bool(b), r3)));
    assert(r3 =~= (seq!['\n'] + spaces(2)) + (seq!['}'] + rest));
    lemma_spaces_are_space(2);
    assert forall|i: int| 0 <= i < (seq!['\n'] + spaces(2)).len() implies is_json_space(
        #[trigger] (seq!['\n'] + spaces(2))[i],
    ) by {
        if i > 0 {
            assert((seq!['\n'] + spaces(2))[i] == spaces(2)[i - 1]);
        }
    }
    lemma_skip_space_prefix(seq!['\n'] + spaces(2), seq!['}'] + rest);
    assert(skip_space(seq!['}'] + rest) == seq!['}'] + rest) by {
        assert((seq!['}'] + rest)[0] == '}');
    }
    assert((seq!['}'] + rest).drop_first() =~= rest);
}

/// What the JSON object of a result denotes: its name, rating and
/// statistics as strings and its success as a boolean, under these keys in
/// this order.
pub open spec fn result_value(r: TestResult) -> JsonValue {
    JsonValue::Object(result_members(r))
}

/// What the JSON array of results denotes: the value of each result, in
/// order.
pub open spec fn results_value(results: Seq<TestResult>) -> JsonValue {
    JsonValue::Array(results.map_values(|r: TestResult| result_value(r)))
}

/// Whether JSON can hold each text field of the results as they are
/// escaped.
pub open spec fn results_json_safe(results: Seq<TestResult>) -> bool {
    forall|i: int|
        0 <= i < results.len() ==> {
            &&& json_safe((#[trigger] results[i]).name@)
            &&& json_safe(results[i].rating@)
            &&& json_safe(results[i].statistics@)
        }
}

/// A result's object, from its opening brace to its closing one.
pub open spec fn object_text(r: TestResult) -> Seq<char> {
    seq!['{', '\n'] + spaces(4) + member_text("name"@, r.name@) + member_text("rating"@, r.rating@)
        + member_text("statistics"@, r.statistics@) + last_member_text("success"@, r.success)
}

/// What follows an entry's closing brace: a line feed, after a comma unless
/// the entry is the last.
pub open spec fn entry_tail(last: bool) -> Seq<char> {
    if last {
        seq!['\n']
    } else {
        seq![',', '\n']
    }
}

proof fn lemma_keys_are_plain()
    ensures
        json_safe("name"@),
        json_safe("rating"@),
        json_safe("statistics"@),
        json_safe("success"@),
        escaped("name"@) == "name"@,
        escaped("rating"@) == "rating"@,
        escaped("statistics"@) == "statistics"@,
        "name"@.len() > 0,
        "rating"@.len() > 0,
        "statistics"@.len() > 0,
{
    reveal_strlit("name");
    reveal_strlit("rating");
    reveal_strlit("statistics");
    reveal_strlit("success");
    lemma_escaped_plain("name"@);
    lemma_escaped_plain("rating"@);
    lemma_escaped_plain("statistics"@);
}

/// A field as an entry writes it.
proof fn lemma_field_shape(key: Seq<char>, value: Seq<char>)
    requires
        escaped(key) == key,
    ensures
        json_field(key, value) == spaces(4) + (quoted(key) + seq![':', ' '] + quoted(value) + seq![
            ',',
            '\n',
        ]),
{
    reveal_strlit("    \"");
    reveal_strlit("\": \"");
    reveal_strlit("\",\n");
    assert(json_field(key, value) =~= spaces(4) + (quoted(key) + seq![':', ' '] + quoted(value)
        + seq![',', '\n']));
}

/// The pieces of an entry, regrouped around its object.
#[verifier::rlimit(50)]
proof fn lemma_entry_layout(
    sp2: Seq<char>,
    open: Seq<char>,
    sp4: Seq<char>,
    c1: Seq<char>,
    c2: Seq<char>,
    c3: Seq<char>,
    q: Seq<char>,
    bt: Seq<char>,
    nl: Seq<char>,
    close: Seq<char>,
    tail: Seq<char>,
)
    ensures
        (sp2 + open) + (sp4 + c1) + (sp4 + c2) + (sp4 + c3) + (sp4 + q) + bt + nl + (sp2 + close
            + tail) == sp2 + (open + sp4 + (c1 + sp4) + (c2 + sp4) + (c3 + sp4) + (q + bt + nl
            + sp2 + close)) + tail,
{
    assert((sp2 + open) + (sp4 + c1) + (sp4 + c2) + (sp4 + c3) + (sp4 + q) + bt + nl + (sp2
        + close + tail) =~= sp2 + (open + sp4 + (c1 + sp4) + (c2 + sp4) + (c3 + sp4) + (q + bt
        + nl + sp2 + close)) + tail);
}

/// An entry is its object, indented, and its tail.
proof fn lemma_entry_shape(r: TestResult, last: bool)
    ensures
        json_entry(r, last) == spaces(2) + object_text(r) + entry_tail(last),
{
    reveal(json_entry);
    lemma_keys_are_plain();
    lemma_field_shape("name"@, r.name@);
    lemma_field_shape("rating"@, r.rating@);
    lemma_field_shape("statistics"@, r.statistics@);
    let sp2 = spaces(2);
    let sp4 = spaces(4);
    let open = seq!['{', '\n'];
    let q = quoted("success"@) + seq![':', ' '];
    let bt = bool_text(r.success);
    let nl = seq!['\n'];
    let close = seq!['}'];
    let tail = entry_tail(last);
    assert("  {\n"@ == sp2 + open) by {
        reveal_strlit("  {\n");
        assert("  {\n"@ =~= sp2 + open);
    }
    assert("    \"success\": "@ == sp4 + q) by {
        reveal_strlit("    \"success\": ");
        reveal_strlit("success");
        lemma_escaped_plain("success"@);
        assert("    \"success\": "@ =~= sp4 + q);
    }
    assert((if r.success {
        "true"@
    } else {
        "false"@
    }) == bt) by {
        reveal_strlit("true");
        reveal_strlit("false");
        assert("true"@ =~= true_text());
        assert("false"@ =~= false_text());
    }
    assert("\n"@ == nl) by {
        reveal_strlit("\n");
        assert("\n"@ =~= nl);
    }
    assert((if last {
        "  }\n"@
    } else {
        "  },\n"@
    }) == sp2 + close + tail) by {
        reveal_strlit("  }\n");
        reveal_strlit("  },\n");
        assert("  }\n"@ =~= sp2 + close + entry_tail(true));
        assert("  },\n"@ =~= sp2 + close + entry_tail(false));
    }
    let c1 = quoted("name"@) + seq![':', ' '] + quoted(r.name@) + seq![',', '\n'];
    let c2 = quoted("rating"@) + seq![':', ' '] + quoted(r.rating@) + seq![',', '\n'];
    let c3 = quoted("statistics"@) + seq![':', ' '] + quoted(r.statistics@) + seq![',', '\n'];
    lemma_entry_layout(sp2, open, sp4, c1, c2, c3, q, bt, nl, close, tail);
}

/// The members of a result's object after the opening brace's line.
pub open spec fn members_text(r: TestResult) -> Seq<char> {
    member_text("name"@, r.name@) + member_text("rating"@, r.rating@) + member_text(
        "statistics"@,
        r.statistics@,
    ) + last_member_text("success"@, r.success)
}

/// The members of a result's object, in order.
pub open spec fn result_members(r: TestResult) -> Seq<(Seq<char>, JsonValue)> {
    seq![
        ("name"@, JsonValue::Str(r.name@)),
        ("rating"@, JsonValue::Str(r.rating@)),
        ("statistics"@, JsonValue::Str(r.statistics@)),
        ("success"@, JsonValue::Bool(r.success)),
    ]
}

/// Reading the members of a result's object.
proof fn lemma_read_members(r: TestResult, rest: Seq<char>, depth: nat)
    requires
        json_safe(r.name@),
        json_safe(r.rating@),
        json_safe(r.statistics@),
    ensures
        parse_members(members_text(r) + rest, depth) == Some((result_members(r), rest)),
        (members_text(r) + rest)[0] == '"',
{
    lemma_keys_are_plain();
    let last = last_member_text("success"@, r.success) + rest;
    let third = member_text("statistics"@, r.statistics@) + last;
    let second = member_text("rating"@, r.rating@) + third;
    let first = member_text("name"@, r.name@) + second;
    let success = seq![("success"@, JsonValue::Bool(r.success))];
    lemma_read_last_member("success"@, r.success, rest, depth);
    assert(last[0] == '"');
    lemma_read_member("statistics"@, r.statistics@, last, depth);
    let statistics = seq![("statistics"@, JsonValue::Str(r.statistics@))] + success;
    assert(parse_members(third, depth) == Some((statistics, rest)));
    assert(third[0] == '"');
    lemma_read_member("rating"@, r.rating@, third, depth);
    let rating = seq![("rating"@, JsonValue::Str(r.rating@))] + statistics;
    assert(parse_members(second, depth) == Some((rating, rest)));
    assert(second[0] == '"');
    lemma_read_member("name"@, r.name@, second, depth);
    let name = seq![("name"@, JsonValue::Str(r.name@))] + rating;
    assert(parse_members(first, depth) == Some((name, rest)));
    assert(name =~= result_members(r));
    assert(first[0] == '"');
    assert(members_text(r) + rest =~= first);
}

/// Reading a result's object gives the result's value.
proof fn lemma_read_object(r: TestResult, rest: Seq<char>, depth: nat)
    requires
        json_safe(r.name@),
        json_safe(r.rating@),
        json_safe(r.statistics@),
    ensures
        parse_value(object_text(r) + rest, depth + 1) == Some((result_value(r), rest)),
{
    let first = members_text(r) + rest;
    lemma_read_members(r, rest, depth);
    let lead = seq!['\n'] + spaces(4);
    let s = object_text(r) + rest;
    assert(s =~= seq!['{'] + (lead + first));
    assert(s[0] == '{');
    assert(s.take(4)[0] == '{');
    assert(s.take(5)[0] == '{');
    assert(s.drop_first() =~= lead + first);
    lemma_spaces_are_space(4);
    assert forall|i: int| 0 <= i < lead.len() implies is_json_space(#[trigger] lead[i]) by {
        if i > 0 {
            assert(lead[i] == spaces(4)[i - 1]);
        }
    }
    lemma_skip_space_prefix(lead, first);
    assert(skip_space(first) == first);
}

/// The JSON objects of the results from position `i` on.
pub open spec fn entries_from(results: Seq<TestResult>, i: int) -> Seq<char>
    decreases results.len() - i,
{
    if i < 0 || i >= results.len() {
        Seq::empty()
    } else {
        json_entry(results[i], i + 1 == results.len()) + entries_from(results, i + 1)
    }
}

/// The objects before a position and those from it make up all of them.
proof fn lemma_entries_split(results: Seq<TestResult>, k: int)
    requires
        0 <= k <= results.len(),
    ensures
        json_entries(results, k) + entries_from(results, k) == entries_from(results, 0),
    decreases k,
{
    if k == 0 {
        assert(json_entries(results, 0) + entries_from(results, 0) =~= entries_from(results, 0));
    } else {
        lemma_entries_split(results, k - 1);
        assert(json_entries(results, k) + entries_from(results, k) =~= json_entries(results, k - 1)
            + entries_from(results, k - 1));
    }
}

/// What the objects from position `i` on denote.
pub open spec fn values_from(results: Seq<TestResult>, i: int) -> Seq<JsonValue> {
    results.skip(i).map_values(|r: TestResult| result_value(r))
}

/// The text from an element's object on, up to the array's end.
pub open spec fn elements_text(results: Seq<TestResult>, i: int, rest: Seq<char>) -> Seq<char> {
    object_text(results[i]) + entry_tail(i + 1 == results.len()) + entries_from(results, i + 1)
        + seq![']'] + rest
}

/// After the last object, white space and the closing bracket.
proof fn lemma_after_last_object(results: Seq<TestResult>, rest: Seq<char>)
    requires
        results.len() > 0,
    ensures
        ({
            let after = entry_tail(true) + entries_from(results, results.len() as int) + seq![']']
                + rest;
            let t = skip_space(after);
            t.len() > 0 && t[0] == ']' && t.drop_first() == rest
        }),
{
    let after = entry_tail(true) + entries_from(results, results.len() as int) + seq![']'] + rest;
    assert(entries_from(results, results.len() as int) == Seq::<char>::empty());
    assert(after =~= seq!['\n'] + (seq![']'] + rest));
    lemma_skip_space_prefix(seq!['\n'], seq![']'] + rest);
    assert(skip_space(seq![']'] + rest) == seq![']'] + rest) by {
        assert((seq![']'] + rest)[0] == ']');
    }
    assert((seq![']'] + rest).drop_first() =~= rest);
}

/// After an object that is not the last, a comma and white space lead to the
/// next object.
proof fn lemma_after_object(results: Seq<TestResult>, i: int, rest: Seq<char>)
    requires
        0 <= i,
        i + 1 < results.len(),
    ensures
        ({
            let after = entry_tail(false) + entries_from(results, i + 1) + seq![']'] + rest;
            let next = elements_text(results, i + 1, rest);
            &&& skip_space(after) == after
            &&& after.len() > 0 && after[0] == ','
            &&& skip_space(after.drop_first()) == next
            &&& next.len() < after.len()
        }),
{
    let n = results.len();
    let after = entry_tail(false) + entries_from(results, i + 1) + seq![']'] + rest;
    let next = elements_text(results, i + 1, rest);
    lemma_entry_shape(results[i + 1], i + 2 == n);
    assert(entries_from(results, i + 1) == json_entry(results[i + 1], i + 2 == n) + entries_from(
        results,
        i + 2,
    ));
    let lead = seq!['\n'] + spaces(2);
    assert(after =~= seq![','] + (lead + next));
    assert(skip_space(after) == after) by {
        assert(after[0] == ',');
    }
    assert(after.drop_first() =~= lead + next);
    lemma_spaces_are_space(2);
    assert forall|j: int| 0 <= j < lead.len() implies is_json_space(#[trigger] lead[j]) by {
        if j > 0 {
            assert(lead[j] == spaces(2)[j - 1]);
        }
    }
    lemma_skip_space_prefix(lead, next);
    assert(skip_space(next) == next) by {
        assert(next[0] == '{');
    }
}

/// Reading the array's elements from position `i` on, up to the closing
/// bracket.
proof fn lemma_read_elements(results: Seq<TestResult>, i: int, rest: Seq<char>, depth: nat)
    requires
        0 <= i < results.len(),
        results_json_safe(results),
    ensures
        parse_elements(elements_text(results, i, rest), depth + 1) == Some(
            (values_from(results, i), rest),
        ),
    decreases results.len() - i,
{
    let n = results.len();
    let r = results[i];
    let after = entry_tail(i + 1 == n) + entries_from(results, i + 1) + seq![']'] + rest;
    let s = elements_text(results, i, rest);
    assert(s =~= object_text(r) + after);
    assert(json_safe(results[i].name@));
    lemma_read_object(r, after, depth);
    let v = result_value(r);
    assert(values_from(results, i)[0] == v);
    if i + 1 == n {
        lemma_after_last_object(results, rest);
        assert(values_from(results, i) =~= seq![v]);
    } else {
        lemma_after_object(results, i, rest);
        lemma_read_elements(results, i + 1, rest, depth);
        assert(values_from(results, i) =~= seq![v] + values_from(results, i + 1));
    }
}

/// The JSON of the results: an opening bracket and line feed, the objects,
/// and a closing bracket.
proof fn lemma_results_text(results: Seq<TestResult>)
    ensures
        results_json(results) == seq!['[', '\n'] + entries_from(results, 0) + seq![']'],
{
    let n = results.len() as int;
    lemma_entries_split(results, n);
    assert(entries_from(results, n) == Seq::<char>::empty());
    assert(json_entries(results, n) =~= entries_from(results, 0));
    reveal_strlit("[\n");
    reveal_strlit("]");
    assert(results_json(results) =~= seq!['[', '\n'] + entries_from(results, 0) + seq![']']);
}

/// Reading the array from the first element on.
proof fn lemma_read_array_body(results: Seq<TestResult>)
    requires
        results_json_safe(results),
    ensures
        ({
            let t = skip_space(seq!['\n'] + entries_from(results, 0) + seq![']']);
            if results.len() == 0 {
                t == seq![']']
            } else {
                t.len() > 0 && t[0] != ']' && parse_elements(t, 1) == Some(
                    (values_from(results, 0), Seq::<char>::empty()),
                )
            }
        }),
{
    let n = results.len() as int;
    let body = entries_from(results, 0) + seq![']'];
    assert(seq!['\n'] + entries_from(results, 0) + seq![']'] =~= seq!['\n'] + body);
    lemma_skip_space_prefix(seq!['\n'], body);
    if n == 0 {
        assert(body =~= seq![']']);
    } else {
        lemma_entry_shape(results[0], 1 == n);
        let first = elements_text(results, 0, Seq::<char>::empty());
        let lead = seq![' ', ' '];
        assert(spaces(2) =~= lead);
        assert(body =~= lead + first);
        lemma_skip_space_prefix(lead, first);
        assert(skip_space(first) == first) by {
            assert(first[0] == '{');
        }
        lemma_read_elements(results, 0, Seq::<char>::empty(), 0);
    }
}

/// The JSON written for the results reads back as an array holding, for
/// each result in order, an object with exactly its name, rating and
/// statistics as strings and its success as a boolean; an empty list is
/// written as an empty array. This holds whenever the texts contain no
/// control character other than line feed, carriage return and tab.
pub proof fn lemma_results_json_reads_back(results: Seq<TestResult>)
    requires
        results_json_safe(results),
    ensures
        json_document(results_json(results), 2) == Some(results_value(results)),
        results.len() == 0 ==> results_json(results) == "[\n]"@,
{
    lemma_results_text(results);
    lemma_read_array_body(results);
    let text = results_json(results);
    let inner = seq!['\n'] + entries_from(results, 0) + seq![']'];
    assert(text =~= seq!['['] + inner);
    assert(skip_space(text) == text) by {
        assert(text[0] == '[');
    }
    assert(text.len() >= 4 ==> text.take(4)[0] == '[');
    assert(text.len() >= 5 ==> text.take(5)[0] == '[');
    assert(text.drop_first() =~= inner);
    assert(results.map_values(|r: TestResult| result_value(r)) =~= values_from(results, 0));
    if results.len() == 0 {
        let t = skip_space(inner);
        assert(t.drop_first() =~= Seq::<char>::empty());
        assert(values_from(results, 0) =~= Seq::<JsonValue>::empty());
        reveal_strlit("[\n]");
        assert(entries_from(results, 0) == Seq::<char>::empty());
        assert(text =~= "[\n]"@);
    }
    assert(skip_space(Seq::<char>::empty()).len() == 0);
}

} // verus!

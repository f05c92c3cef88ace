//! Text handling shared by the parsers and the report: white space,
//! trimming, splitting into lines and words, and comparison.
use vstd::prelude::*;

verus! {

/// Whether a character has the Unicode `White_Space` property, the property
/// that `char::is_whitespace` tests: U+0009 to U+000D, U+0020, U+0085,
/// U+00A0, U+1680, U+2000 to U+200A, U+2028, U+2029, U+202F, U+205F and
/// U+3000.
pub open spec fn is_white_space(c: char) -> bool {
    let u = c as u32;
    ||| 0x09 <= u <= 0x0d
    ||| u == 0x20
    ||| u == 0x85
    ||| u == 0xa0
    ||| u == 0x1680
    ||| 0x2000 <= u <= 0x200a
    ||| u == 0x2028
    ||| u == 0x2029
    ||| u == 0x202f
    ||| u == 0x205f
    ||| u == 0x3000
}

/// Whether a character is white space, as `char::is_whitespace` decides.
pub fn char_is_whitespace(c: char) -> (r: bool)
    ensures
        r == is_white_space(c),
{
    let u = c as u32;
    (0x09 <= u && u <= 0x0d) || u == 0x20 || u == 0x85 || u == 0xa0 || u == 0x1680 || (0x2000
        <= u && u <= 0x200a) || u == 0x2028 || u == 0x2029 || u == 0x202f || u == 0x205f || u
        == 0x3000
}

/// The text with its leading white space removed.
pub open spec fn trim_start(s: Seq<char>) -> Seq<char>
    decreases s.len(),
{
    if s.len() > 0 && is_white_space(s[0]) {
        trim_start(s.drop_first())
    } else {
        s
    }
}

/// The text with its trailing white space removed.
pub open spec fn trim_end(s: Seq<char>) -> Seq<char>
    decreases s.len(),
{
    if s.len() > 0 && is_white_space(s.last()) {
        trim_end(s.drop_last())
    } else {
        s
    }
}

/// The text with leading and trailing white space removed, as `str::trim`
/// gives it.
pub open spec fn trimmed(s: Seq<char>) -> Seq<char> {
    trim_end(trim_start(s))
}

/// Whether the text holds nothing but white space.
pub open spec fn is_blank_text(s: Seq<char>) -> bool {
    trimmed(s).len() == 0
}

/// Removes leading and trailing white space.
pub fn trim(s: &str) -> (r: String)
    ensures
        r@ == trimmed(s@),
{
    let n = s.unicode_len();
    let mut i: usize = 0;
    assert(s@.skip(0) =~= s@);
    while i < n && char_is_whitespace(s.get_char(i))
        invariant
            n == s@.len(),
            i <= n,
            trim_start(s@) == trim_start(s@.skip(i as int)),
        decreases n - i,
    {
        assert(s@.skip(i as int).drop_first() =~= s@.skip(i + 1));
        i = i + 1;
    }
    let ghost start = s@.skip(i as int);
    assert(trim_start(s@) == start) by {
        if i < n {
            assert(start[0] == s@[i as int]);
        } else {
            assert(start.len() == 0);
        }
    }
    let mut j: usize = n;
    while j > i && char_is_whitespace(s.get_char(j - 1))
        invariant
            n == s@.len(),
            i <= j <= n,
            start == s@.skip(i as int),
            trim_end(start) == trim_end(s@.subrange(i as int, j as int)),
        decreases j,
    {
        assert(s@.subrange(i as int, j as int).drop_last() =~= s@.subrange(i as int, j - 1));
        j = j - 1;
    }
    assert(start =~= s@.subrange(i as int, n as int));
    let r = String::from_str(s.substring_char(i, j));
    proof {
        let part = s@.subrange(i as int, j as int);
        if j > i {
            assert(part.last() == s@[j - 1]);
        }
        assert(trim_end(part) == part);
    }
    r
}

/// Whether the text is empty once trimmed, that is, holds only white space.
pub fn is_blank(s: &str) -> (r: bool)
    ensures
        r == is_blank_text(s@),
{
    let t = trim(s);
    t.as_str().is_empty()
}

/// Whether two texts are the same.
pub fn text_equals(a: &str, b: &str) -> (r: bool)
    ensures
        r == (a@ == b@),
{
    let left = String::from_str(a);
    let right = String::from_str(b);
    left == right
}

/// The texts of a sequence of strings.
pub open spec fn texts(ws: Seq<String>) -> Seq<Seq<char>> {
    ws.map_values(|w: String| w@)
}

/// Reading a text from the start: the words completed so far, and the word
/// being read.
pub open spec fn scan_words(s: Seq<char>) -> (Seq<Seq<char>>, Seq<char>)
    decreases s.len(),
{
    if s.len() == 0 {
        (Seq::empty(), Seq::empty())
    } else {
        let before = scan_words(s.drop_last());
        let c = s.last();
        if is_white_space(c) {
            if before.1.len() > 0 {
                (before.0.push(before.1), Seq::empty())
            } else {
                before
            }
        } else {
            (before.0, before.1.push(c))
        }
    }
}

/// The words of a text: its maximal runs of characters that are not white
/// space, in order, as `str::split_whitespace` yields them.
pub open spec fn words(s: Seq<char>) -> Seq<Seq<char>> {
    let scanned = scan_words(s);
    if scanned.1.len() > 0 {
        scanned.0.push(scanned.1)
    } else {
        scanned.0
    }
}

/// Reading a text from the start: the lines completed so far, and the line
/// being read.
pub open spec fn scan_lines(s: Seq<char>) -> (Seq<Seq<char>>, Seq<char>)
    decreases s.len(),
{
    if s.len() == 0 {
        (Seq::empty(), Seq::empty())
    } else {
        let before = scan_lines(s.drop_last());
        let c = s.last();
        if c == '\n' {
            (before.0.push(before.1), Seq::empty())
        } else {
            (before.0, before.1.push(c))
        }
    }
}

/// The pieces of a text between line feeds, the last one included even when
/// it is empty.
///
/// Cut into words, these give the words of each line that `str::lines`
/// yields: `lines` also drops a carriage return before a line feed and an
/// empty last piece, and neither holds a word.
pub open spec fn line_pieces(s: Seq<char>) -> Seq<Seq<char>> {
    let scanned = scan_lines(s);
    scanned.0.push(scanned.1)
}

/// The words of each line of a text.
pub open spec fn line_words(s: Seq<char>) -> Seq<Seq<Seq<char>>> {
    line_pieces(s).map_values(|line: Seq<char>| words(line))
}

/// Splits a text into its words.
pub fn split_whitespace(s: &str) -> (r: Vec<String>)
    ensures
        texts(r@) == words(s@),
{
    let n = s.unicode_len();
    let mut done: Vec<String> = Vec::new();
    let mut current = String::new();
    let mut i: usize = 0;
    assert(s@.take(0) =~= Seq::<char>::empty());
    assert(texts(done@) =~= Seq::<Seq<char>>::empty());
    while i < n
        invariant
            n == s@.len(),
            i <= n,
            (texts(done@), current@) == scan_words(s@.take(i as int)),
        decreases n - i,
    {
        let c = s.get_char(i);
        proof {
            assert(s@.take(i + 1).drop_last() =~= s@.take(i as int));
            assert(s@.take(i + 1).last() == c);
        }
        if char_is_whitespace(c) {
            if !current.as_str().is_empty() {
                let ghost before = texts(done@);
                let ghost word = current@;
                done.push(current);
                current = String::new();
                assert(texts(done@) =~= before.push(word));
            }
        } else {
            let piece = s.substring_char(i, i + 1);
            assert(piece@ =~= seq![c]);
            let ghost before = current@;
            current.append(piece);
            assert(current@ =~= before.push(c));
        }
        i = i + 1;
    }
    assert(s@.take(n as int) =~= s@);
    if !current.as_str().is_empty() {
        let ghost before = texts(done@);
        let ghost word = current@;
        done.push(current);
        assert(texts(done@) =~= before.push(word));
    }
    done
}

/// Splits a text at its line feeds.
pub fn split_lines(s: &str) -> (r: Vec<String>)
    ensures
        texts(r@) == line_pieces(s@),
{
    let n = s.unicode_len();
    let mut done: Vec<String> = Vec::new();
    let mut current = String::new();
    let mut i: usize = 0;
    assert(s@.take(0) =~= Seq::<char>::empty());
    assert(texts(done@) =~= Seq::<Seq<char>>::empty());
    while i < n
        invariant
            n == s@.len(),
            i <= n,
            (texts(done@), current@) == scan_lines(s@.take(i as int)),
        decreases n - i,
    {
        let c = s.get_char(i);
        proof {
            assert(s@.take(i + 1).drop_last() =~= s@.take(i as int));
            assert(s@.take(i + 1).last() == c);
        }
        if c == '\n' {
            let ghost before = texts(done@);
            let ghost line = current@;
            done.push(current);
            current = String::new();
            assert(texts(done@) =~= before.push(line));
        } else {
            let piece = s.substring_char(i, i + 1);
            assert(piece@ =~= seq![c]);
            let ghost before = current@;
            current.append(piece);
            assert(current@ =~= before.push(c));
        }
        i = i + 1;
    }
    assert(s@.take(n as int) =~= s@);
    let ghost before = texts(done@);
    let ghost line = current@;
    done.push(current);
    assert(texts(done@) =~= before.push(line));
    done
}

/// The words of each line of a text.
pub fn split_line_words(s: &str) -> (r: Vec<Vec<String>>)
    ensures
        r@.len() == line_words(s@).len(),
        forall|k: int| 0 <= k < r@.len() ==> texts(#[trigger] r@[k]@) == line_words(s@)[k],
{
    let lines = split_lines(s);
    let mut r: Vec<Vec<String>> = Vec::new();
    let mut i: usize = 0;
    while i < lines.len()
        invariant
            texts(lines@) == line_pieces(s@),
            i <= lines@.len(),
            r@.len() == i,
            forall|k: int| 0 <= k < i ==> texts(#[trigger] r@[k]@) == line_words(s@)[k],
        decreases lines.len() - i,
    {
        let w = split_whitespace(lines[i].as_str());
        proof {
            assert(texts(lines@)[i as int] == lines@[i as int]@);
        }
        r.push(w);
        i = i + 1;
    }
    r
}

/// Trimming the start drops a run of white space and keeps the rest.
pub proof fn lemma_trim_start_is_suffix(s: Seq<char>) -> (i: int)
    ensures
        0 <= i <= s.len(),
        trim_start(s) == s.skip(i),
        forall|k: int| 0 <= k < i ==> is_white_space(#[trigger] s[k]),
    decreases s.len(),
{
    if s.len() > 0 && is_white_space(s[0]) {
        let j = lemma_trim_start_is_suffix(s.drop_first());
        assert(s.drop_first().skip(j) =~= s.skip(j + 1));
        assert forall|k: int| 0 <= k < j + 1 implies is_white_space(#[trigger] s[k]) by {
            if k > 0 {
                assert(s[k] == s.drop_first()[k - 1]);
            }
        }
        j + 1
    } else {
        assert(s.skip(0) =~= s);
        0
    }
}

/// Trimming the end drops a run of white space and keeps the rest.
pub proof fn lemma_trim_end_is_prefix(s: Seq<char>) -> (j: int)
    ensures
        0 <= j <= s.len(),
        trim_end(s) == s.take(j),
        forall|k: int| j <= k < s.len() ==> is_white_space(#[trigger] s[k]),
    decreases s.len(),
{
    if s.len() > 0 && is_white_space(s.last()) {
        let j = lemma_trim_end_is_prefix(s.drop_last());
        assert(s.drop_last().take(j) =~= s.take(j));
        assert forall|k: int| j <= k < s.len() implies is_white_space(#[trigger] s[k]) by {
            if k < s.len() - 1 {
                assert(s[k] == s.drop_last()[k]);
            }
        }
        j
    } else {
        assert(s.take(s.len() as int) =~= s);
        s.len() as int
    }
}

/// A text that holds a character other than white space is not blank.
pub proof fn lemma_not_blank(s: Seq<char>, k: int)
    requires
        0 <= k < s.len(),
        !is_white_space(s[k]),
    ensures
        !is_blank_text(s),
{
    let i = lemma_trim_start_is_suffix(s);
    let t = trim_start(s);
    assert(t[k - i] == s[k]);
    let j = lemma_trim_end_is_prefix(t);
    assert(j > k - i);
}

/// What `str::to_lowercase` makes of a text: its Unicode lowercase mapping.
pub uninterp spec fn lowercase(s: Seq<char>) -> Seq<char>;

/// `str::to_lowercase`. Trusted to return `lowercase(s@)`, a function of
/// the text alone; the Unicode case tables it follows are not stated here.
#[verifier::external_body]
pub(crate) fn to_lowercase(s: &str) -> (r: String)
    ensures
        r@ == lowercase(s@),
{
    s.to_lowercase()
}

/// The position of the first occurrence of a word, if it occurs.
pub open spec fn word_position(ws: Seq<Seq<char>>, word: Seq<char>) -> Option<int>
    decreases ws.len(),
{
    if ws.len() == 0 {
        None
    } else {
        match word_position(ws.drop_last(), word) {
            Some(i) => Some(i),
            None => if ws.last() == word {
                Some(ws.len() - 1)
            } else {
                None
            },
        }
    }
}

/// The word that follows the first occurrence of a word, if both exist.
pub open spec fn word_after(ws: Seq<Seq<char>>, word: Seq<char>) -> Option<Seq<char>> {
    match word_position(ws, word) {
        Some(i) => if i + 1 < ws.len() {
            Some(ws[i + 1])
        } else {
            None
        },
        None => None,
    }
}

/// A found position lies within the sequence.
pub proof fn lemma_word_position_in_bounds(ws: Seq<Seq<char>>, word: Seq<char>)
    ensures
        word_position(ws, word) matches Some(i) ==> 0 <= i < ws.len() && ws[i] == word,
    decreases ws.len(),
{
    if ws.len() > 0 {
        lemma_word_position_in_bounds(ws.drop_last(), word);
    }
}

/// Finds the first occurrence of a word.
pub fn find_word(ws: &Vec<String>, word: &str) -> (r: Option<usize>)
    ensures
        r matches Some(i) ==> word_position(texts(ws@), word@) == Some(i as int),
        r is None ==> word_position(texts(ws@), word@) is None,
{
    let mut i: usize = 0;
    assert(texts(ws@).take(0) =~= Seq::<Seq<char>>::empty());
    while i < ws.len()
        invariant
            i <= ws@.len(),
            word_position(texts(ws@).take(i as int), word@) is None,
        decreases ws.len() - i,
    {
        let ghost t = texts(ws@);
        assert(t.take(i + 1).drop_last() =~= t.take(i as int));
        assert(t.take(i + 1).last() == ws@[i as int]@);
        if text_equals(ws[i].as_str(), word) {
            proof {
                lemma_position_of_prefix(t, word@, i + 1);
            }
            return Some(i);
        }
        i = i + 1;
    }
    assert(texts(ws@).take(ws@.len() as int) =~= texts(ws@));
    None
}

/// The first occurrence in a prefix that holds one is the first occurrence
/// in the whole sequence.
pub proof fn lemma_position_of_prefix(ws: Seq<Seq<char>>, word: Seq<char>, k: int)
    requires
        0 <= k <= ws.len(),
        word_position(ws.take(k), word) is Some,
    ensures
        word_position(ws, word) == word_position(ws.take(k), word),
    decreases ws.len(),
{
    if k < ws.len() {
        assert(ws.drop_last().take(k) =~= ws.take(k));
        lemma_position_of_prefix(ws.drop_last(), word, k);
    } else {
        assert(ws.take(k) =~= ws);
    }
}

/// A copy of the word that follows the first occurrence of a word.
pub fn find_word_after(ws: &Vec<String>, word: &str) -> (r: Option<String>)
    ensures
        r matches Some(w) ==> word_after(texts(ws@), word@) == Some(w@),
        r is None ==> word_after(texts(ws@), word@) is None,
{
    proof {
        lemma_word_position_in_bounds(texts(ws@), word@);
        assert(texts(ws@).len() == ws@.len());
    }
    match find_word(ws, word) {
        Some(i) => if i < ws.len() - 1 {
            Some(ws[i + 1].clone())
        } else {
            None
        },
        None => None,
    }
}

/// Whether a text comes no later than another in lexicographic order of
/// characters, the order of `str`'s comparisons.
pub open spec fn text_le(a: Seq<char>, b: Seq<char>) -> bool
    decreases a.len(),
{
    if a.len() == 0 {
        true
    } else if b.len() == 0 {
        false
    } else if a[0] != b[0] {
        (a[0] as int) < (b[0] as int)
    } else {
        text_le(a.drop_first(), b.drop_first())
    }
}

/// Of two texts, one comes no later than the other.
pub proof fn lemma_text_le_total(a: Seq<char>, b: Seq<char>)
    ensures
        text_le(a, b) || text_le(b, a),
    decreases a.len(),
{
    if a.len() > 0 && b.len() > 0 {
        if a[0] == b[0] {
            lemma_text_le_total(a.drop_first(), b.drop_first());
        } else {
            assert((a[0] as int) != (b[0] as int));
        }
    }
}

/// Lexicographic order is transitive.
pub proof fn lemma_text_le_transitive(a: Seq<char>, b: Seq<char>, c: Seq<char>)
    requires
        text_le(a, b),
        text_le(b, c),
    ensures
        text_le(a, c),
    decreases a.len(),
{
    if a.len() > 0 && b.len() > 0 && c.len() > 0 && a[0] == b[0] && b[0] == c[0] {
        lemma_text_le_transitive(a.drop_first(), b.drop_first(), c.drop_first());
    }
}

/// Compares two texts in lexicographic order of characters.
pub fn text_less_or_equal(a: &str, b: &str) -> (r: bool)
    ensures
        r == text_le(a@, b@),
{
    let n = a.unicode_len();
    let m = b.unicode_len();
    let mut i: usize = 0;
    assert(a@.skip(0) =~= a@);
    assert(b@.skip(0) =~= b@);
    while i < n && i < m
        invariant
            n == a@.len(),
            m == b@.len(),
            i <= n,
            i <= m,
            text_le(a@, b@) == text_le(a@.skip(i as int), b@.skip(i as int)),
        decreases n - i,
    {
        let x = a.get_char(i);
        let y = b.get_char(i);
        let ghost sa = a@.skip(i as int);
        let ghost sb = b@.skip(i as int);
        assert(sa[0] == x && sb[0] == y);
        if x != y {
            return (x as u32) < (y as u32);
        }
        assert(sa.drop_first() =~= a@.skip(i + 1));
        assert(sb.drop_first() =~= b@.skip(i + 1));
        i = i + 1;
    }
    i == n
}

/// Reading on from a point where no word is open: the words already read,
/// then those of the rest.
proof fn lemma_scan_words_from_boundary(p: Seq<char>, b: Seq<char>)
    requires
        scan_words(p).1.len() == 0,
    ensures
        scan_words(p + b) == (scan_words(p).0 + scan_words(b).0, scan_words(b).1),
    decreases b.len(),
{
    if b.len() == 0 {
        assert(p + b =~= p);
        assert(scan_words(p).0 + scan_words(b).0 =~= scan_words(p).0);
    } else {
        lemma_scan_words_from_boundary(p, b.drop_last());
        assert((p + b).drop_last() =~= p + b.drop_last());
        assert((p + b).last() == b.last());
        let d = scan_words(p).0;
        let inner = scan_words(b.drop_last());
        if is_white_space(b.last()) && inner.1.len() > 0 {
            assert(d + inner.0.push(inner.1) =~= (d + inner.0).push(inner.1));
        }
    }
}

/// A run of characters with no white space is one word.
pub proof fn lemma_words_of_run(s: Seq<char>)
    requires
        s.len() > 0,
        forall|i: int| 0 <= i < s.len() ==> !is_white_space(#[trigger] s[i]),
    ensures
        words(s) == seq![s],
{
    lemma_scan_words_of_run(s);
}

proof fn lemma_scan_words_of_run(s: Seq<char>)
    requires
        forall|i: int| 0 <= i < s.len() ==> !is_white_space(#[trigger] s[i]),
    ensures
        scan_words(s) == (Seq::<Seq<char>>::empty(), s),
    decreases s.len(),
{
    if s.len() > 0 {
        let front = s.drop_last();
        assert forall|i: int| 0 <= i < front.len() implies !is_white_space(#[trigger] front[i]) by {
            assert(front[i] == s[i]);
        }
        lemma_scan_words_of_run(front);
        assert(!is_white_space(s[s.len() - 1]));
        assert(front.push(s.last()) =~= s);
    }
}

/// White space splits words: the words of two texts joined by a white-space
/// character are the words of the first followed by those of the second.
pub proof fn lemma_words_split_at_space(a: Seq<char>, c: char, b: Seq<char>)
    requires
        is_white_space(c),
    ensures
        words(a + seq![c] + b) == words(a) + words(b),
{
    let p = a + seq![c];
    assert(p.drop_last() =~= a);
    assert(p.last() == c);
    assert(scan_words(p).0 == words(a));
    assert(scan_words(p).1.len() == 0);
    lemma_scan_words_from_boundary(p, b);
    let sb = scan_words(b);
    if sb.1.len() > 0 {
        assert((words(a) + sb.0).push(sb.1) =~= words(a) + sb.0.push(sb.1));
    }
}

/// Reading on from the start of a line: the lines already read, then those
/// of the rest.
proof fn lemma_scan_lines_from_boundary(p: Seq<char>, b: Seq<char>)
    requires
        scan_lines(p).1.len() == 0,
    ensures
        scan_lines(p + b) == (scan_lines(p).0 + scan_lines(b).0, scan_lines(b).1),
    decreases b.len(),
{
    if b.len() == 0 {
        assert(p + b =~= p);
        assert(scan_lines(p).0 + scan_lines(b).0 =~= scan_lines(p).0);
    } else {
        lemma_scan_lines_from_boundary(p, b.drop_last());
        assert((p + b).drop_last() =~= p + b.drop_last());
        assert((p + b).last() == b.last());
        let d = scan_lines(p).0;
        let inner = scan_lines(b.drop_last());
        if b.last() == '\n' {
            assert(d + inner.0.push(inner.1) =~= (d + inner.0).push(inner.1));
        }
    }
}

proof fn lemma_scan_lines_of_line(s: Seq<char>)
    requires
        forall|i: int| 0 <= i < s.len() ==> #[trigger] s[i] != '\n',
    ensures
        scan_lines(s) == (Seq::<Seq<char>>::empty(), s),
    decreases s.len(),
{
    if s.len() > 0 {
        let front = s.drop_last();
        assert forall|i: int| 0 <= i < front.len() implies #[trigger] front[i] != '\n' by {
            assert(front[i] == s[i]);
        }
        lemma_scan_lines_of_line(front);
        assert(s[s.len() - 1] != '\n');
        assert(front.push(s.last()) =~= s);
    }
}

/// A text with no line feed is one line.
pub proof fn lemma_line_pieces_of_line(s: Seq<char>)
    requires
        forall|i: int| 0 <= i < s.len() ==> #[trigger] s[i] != '\n',
    ensures
        line_pieces(s) == seq![s],
{
    lemma_scan_lines_of_line(s);
    assert(Seq::<Seq<char>>::empty().push(s) =~= seq![s]);
}

/// A line feed splits lines: the lines of two texts joined by a line feed
/// are the lines of the first followed by those of the second.
pub proof fn lemma_line_pieces_split(a: Seq<char>, b: Seq<char>)
    ensures
        line_pieces(a + seq!['\n'] + b) == line_pieces(a) + line_pieces(b),
{
    let p = a + seq!['\n'];
    assert(p.drop_last() =~= a);
    assert(p.last() == '\n');
    assert(scan_lines(p).0 == line_pieces(a));
    lemma_scan_lines_from_boundary(p, b);
    let sb = scan_lines(b);
    assert((line_pieces(a) + sb.0).push(sb.1) =~= line_pieces(a) + sb.0.push(sb.1));
}

/// A found position holds the word, and no earlier position does; the word
/// is not found exactly when no position holds it.
pub proof fn lemma_word_position_meaning(ws: Seq<Seq<char>>, word: Seq<char>)
    ensures
        word_position(ws, word) is None <==> forall|j: int| 0 <= j < ws.len() ==> #[trigger] ws[j]
            != word,
        word_position(ws, word) matches Some(i) ==> 0 <= i < ws.len() && ws[i] == word && forall|
            j: int,
        |
            0 <= j < i ==> #[trigger] ws[j] != word,
    decreases ws.len(),
{
    if ws.len() > 0 {
        let front = ws.drop_last();
        lemma_word_position_meaning(front, word);
        assert forall|j: int| 0 <= j < front.len() implies #[trigger] front[j] == ws[j] by {}
        if word_position(front, word) is None && ws.last() != word {
            assert forall|j: int| 0 <= j < ws.len() implies #[trigger] ws[j] != word by {
                if j < ws.len() - 1 {
                    assert(front[j] == ws[j]);
                }
            }
        }
        if let Some(i) = word_position(ws, word) {
            assert forall|j: int| 0 <= j < i implies #[trigger] ws[j] != word by {
                assert(front[j] == ws[j]);
            }
        }
    }
}

/// Trimming keeps the part of the text between its first and last
/// characters that are not white space, and drops only white space.
pub proof fn lemma_trimmed_meaning(s: Seq<char>)
    ensures
        exists|i: int, j: int|
            {
                &&& 0 <= i <= j <= s.len()
                &&& #[trigger] trimmed(s) == s.subrange(i, j)
                &&& forall|k: int| 0 <= k < i ==> is_white_space(#[trigger] s[k])
                &&& forall|k: int| j <= k < s.len() ==> is_white_space(#[trigger] s[k])
                &&& i < j ==> !is_white_space(s[i]) && !is_white_space(s[j - 1])
            },
{
    let i = lemma_trim_start_is_suffix(s);
    let t = trim_start(s);
    let m = lemma_trim_end_is_prefix(t);
    let j = i + m;
    assert(trimmed(s) =~= s.subrange(i, j));
    assert forall|k: int| j <= k < s.len() implies is_white_space(#[trigger] s[k]) by {
        assert(t[k - i] == s[k]);
    }
    if i < j {
        assert(t[0] == s[i]);
        lemma_trim_start_fixed(s);
        assert(!is_white_space(s[i]));
        let front = trim_end(t);
        assert(front.len() == m);
        assert(front.len() > 0 ==> !is_white_space(front.last())) by {
            if front.len() > 0 && is_white_space(front.last()) {
                lemma_trim_end_fixed(t);
            }
        }
        assert(front[m - 1] == s[j - 1]);
    }
}

proof fn lemma_trim_start_fixed(s: Seq<char>)
    ensures
        trim_start(s).len() > 0 ==> !is_white_space(trim_start(s)[0]),
    decreases s.len(),
{
    if s.len() > 0 && is_white_space(s[0]) {
        lemma_trim_start_fixed(s.drop_first());
    }
}

proof fn lemma_trim_end_fixed(s: Seq<char>)
    ensures
        trim_end(s).len() > 0 ==> !is_white_space(trim_end(s).last()),
    decreases s.len(),
{
    if s.len() > 0 && is_white_space(s.last()) {
        lemma_trim_end_fixed(s.drop_last());
    }
}

/// A text comes no later than any text it begins.
pub proof fn lemma_text_le_prefix(a: Seq<char>, b: Seq<char>)
    requires
        a.len() <= b.len(),
        b.take(a.len() as int) == a,
    ensures
        text_le(a, b),
    decreases a.len(),
{
    if a.len() > 0 {
        assert(b[0] == b.take(a.len() as int)[0]);
        assert(b.drop_first().take(a.len() - 1) =~= b.take(a.len() as int).drop_first());
        lemma_text_le_prefix(a.drop_first(), b.drop_first());
    }
}

/// At the first character where two texts differ, the smaller character
/// decides the order.
pub proof fn lemma_text_le_first_difference(a: Seq<char>, b: Seq<char>, k: int)
    requires
        0 <= k < a.len(),
        k < b.len(),
        forall|i: int| 0 <= i < k ==> a[i] == b[i],
        (a[k] as int) < (b[k] as int),
    ensures
        text_le(a, b),
        !text_le(b, a),
    decreases k,
{
    if k > 0 {
        assert(a[0] == b[0]);
        lemma_text_le_first_difference(a.drop_first(), b.drop_first(), k - 1);
    }
}

} // verus!

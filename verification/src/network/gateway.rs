//! The default route, read from the routing table that `ip route` prints.
use vstd::prelude::*;

use crate::text::{find_word_after, line_words, split_line_words, text_equals, texts, word_after};

verus! {

/// What the default route names: the gateway's address, as written, and
/// the interface that reaches it.
#[derive(Debug, Clone)]
pub struct RouteFields {
    pub via: String,
    pub device: Option<String>,
}

/// The position of the first line whose first word is `word`.
pub open spec fn line_led_by(lines: Seq<Seq<Seq<char>>>, word: Seq<char>) -> Option<int>
    decreases lines.len(),
{
    if lines.len() == 0 {
        None
    } else {
        match line_led_by(lines.drop_last(), word) {
            Some(i) => Some(i),
            None => if lines.last().len() > 0 && lines.last()[0] == word {
                Some(lines.len() - 1)
            } else {
                None
            },
        }
    }
}

/// The default route in the output of `ip route show default`: from the
/// first line whose first word is `default`, the word that follows the first
/// `via`, which must exist, and the word that follows the first `dev`, if
/// any. The gateway is the route only when the `via` word is an IP address.
pub open spec fn default_route(output: Seq<char>) -> Option<(Seq<char>, Option<Seq<char>>)> {
    let lines = line_words(output);
    match line_led_by(lines, "default"@) {
        None => None,
        Some(i) => match word_after(lines[i], "via"@) {
            None => None,
            Some(via) => Some((via, word_after(lines[i], "dev"@))),
        },
    }
}

/// A found line lies within the sequence and is led by the word.
proof fn lemma_line_led_by_in_bounds(lines: Seq<Seq<Seq<char>>>, word: Seq<char>)
    ensures
        line_led_by(lines, word) matches Some(i) ==> 0 <= i < lines.len() && lines[i].len() > 0
            && lines[i][0] == word,
    decreases lines.len(),
{
    if lines.len() > 0 {
        lemma_line_led_by_in_bounds(lines.drop_last(), word);
    }
}

/// The first line led by the word in a prefix that holds one is the first
/// such line of the whole sequence.
proof fn lemma_line_led_by_prefix(lines: Seq<Seq<Seq<char>>>, word: Seq<char>, k: int)
    requires
        0 <= k <= lines.len(),
        line_led_by(lines.take(k), word) is Some,
    ensures
        line_led_by(lines, word) == line_led_by(lines.take(k), word),
    decreases lines.len(),
{
    if k < lines.len() {
        assert(lines.drop_last().take(k) =~= lines.take(k));
        lemma_line_led_by_prefix(lines.drop_last(), word, k);
    } else {
        assert(lines.take(k) =~= lines);
    }
}

/// Reads the default route from the output of `ip route show default`.
pub fn default_route_fields(output: &str) -> (r: Option<RouteFields>)
    ensures
        match default_route(output@) {
            None => r is None,
            Some((via, device)) => r matches Some(f) && f.via@ == via && match device {
                None => f.device is None,
                Some(d) => f.device matches Some(name) && name@ == d,
            },
        },
{
    let lines = split_line_words(output);
    let ghost spec_lines = line_words(output@);
    let mut i: usize = 0;
    let mut found: Option<usize> = None;
    assert(spec_lines.take(0) =~= Seq::<Seq<Seq<char>>>::empty());
    while found.is_none() && i < lines.len()
        invariant
            lines@.len() == spec_lines.len(),
            spec_lines == line_words(output@),
            forall|k: int| 0 <= k < lines@.len() ==> texts(#[trigger] lines@[k]@) == spec_lines[k],
            i <= lines@.len(),
            found is None ==> line_led_by(spec_lines.take(i as int), "default"@) is None,
            found matches Some(f) ==> line_led_by(spec_lines, "default"@) == Some(f as int),
        decreases lines.len() - i,
    {
        assert(spec_lines.take(i + 1).drop_last() =~= spec_lines.take(i as int));
        assert(spec_lines.take(i + 1).last() == spec_lines[i as int]);
        if lines[i].len() > 0 && text_equals(lines[i][0].as_str(), "default") {
            assert(texts(lines@[i as int]@)[0] == lines@[i as int]@[0]@);
            proof {
                lemma_line_led_by_prefix(spec_lines, "default"@, i + 1);
            }
            found = Some(i);
        } else {
            proof {
                if lines@[i as int]@.len() > 0 {
                    assert(texts(lines@[i as int]@)[0] == lines@[i as int]@[0]@);
                }
            }
        }
        i = i + 1;
    }
    let index = match found {
        Some(index) => index,
        None => {
            assert(spec_lines.take(lines@.len() as int) =~= spec_lines);
            return None;
        },
    };
    proof {
        lemma_line_led_by_in_bounds(spec_lines, "default"@);
    }
    let parts = &lines[index];
    let via = match find_word_after(parts, "via") {
        Some(via) => via,
        None => return None,
    };
    let device = find_word_after(parts, "dev");
    Some(RouteFields { via, device })
}

/// The found line is the first whose first word is the word; none is found
/// exactly when no line starts with the word.
pub proof fn lemma_line_led_by_meaning(lines: Seq<Seq<Seq<char>>>, word: Seq<char>)
    ensures
        line_led_by(lines, word) is None <==> forall|j: int|
            0 <= j < lines.len() ==> !((#[trigger] lines[j]).len() > 0 && lines[j][0] == word),
        line_led_by(lines, word) matches Some(i) ==> 0 <= i < lines.len() && lines[i].len() > 0
            && lines[i][0] == word && forall|j: int|
            0 <= j < i ==> !((#[trigger] lines[j]).len() > 0 && lines[j][0] == word),
    decreases lines.len(),
{
    if lines.len() > 0 {
        let front = lines.drop_last();
        lemma_line_led_by_meaning(front, word);
        if line_led_by(front, word) is None {
            assert forall|j: int| 0 <= j < lines.len() - 1 implies !((#[trigger] lines[j]).len() > 0
                && lines[j][0] == word) by {
                assert(front[j] == lines[j]);
            }
        }
        if let Some(i) = line_led_by(lines, word) {
            assert forall|j: int| 0 <= j < i implies !((#[trigger] lines[j]).len() > 0
                && lines[j][0] == word) by {
                assert(front[j] == lines[j]);
            }
        }
    }
}

} // verus!

//! The DNS resolvers listed in `/etc/resolv.conf`.
use vstd::prelude::*;

use crate::text::{line_words, split_line_words, text_equals, texts};

verus! {

/// The address a line declares for a resolver, as written: the second word
/// of a line whose first word is `nameserver`. The resolver exists when that
/// word is an IP address.
///
/// Blank lines and comment lines, whose first word starts with `#`, declare
/// none, as their first word is not `nameserver`.
pub open spec fn declared_nameserver(line: Seq<Seq<char>>) -> Option<Seq<char>> {
    if line.len() >= 2 && line[0] == "nameserver"@ {
        Some(line[1])
    } else {
        None
    }
}

/// The resolver addresses that the lines declare, in order.
pub open spec fn declared_nameservers(lines: Seq<Seq<Seq<char>>>) -> Seq<Seq<char>>
    decreases lines.len(),
{
    if lines.len() == 0 {
        Seq::empty()
    } else {
        let before = declared_nameservers(lines.drop_last());
        match declared_nameserver(lines.last()) {
            Some(address) => before.push(address),
            None => before,
        }
    }
}

/// A line that declares a resolver: at least two words, the first of them
/// `nameserver`.
pub open spec fn is_nameserver_line(line: Seq<Seq<char>>) -> bool {
    line.len() >= 2 && line[0] == "nameserver"@
}

/// The second word of a line.
pub open spec fn second_word(line: Seq<Seq<char>>) -> Seq<char> {
    line[1]
}

/// Each further line adds its resolver, when it declares one, at the end,
/// and changes nothing otherwise.
pub proof fn lemma_declared_nameservers_push(lines: Seq<Seq<Seq<char>>>, line: Seq<Seq<char>>)
    ensures
        declared_nameservers(lines.push(line)) == if line.len() >= 2 && line[0] == "nameserver"@ {
            declared_nameservers(lines).push(line[1])
        } else {
            declared_nameservers(lines)
        },
{
    assert(lines.push(line).drop_last() =~= lines);
    assert(lines.push(line).last() == line);
}

/// The resolvers of two runs of lines, one after the other, are those of
/// the first followed by those of the second.
pub proof fn lemma_declared_nameservers_concat(a: Seq<Seq<Seq<char>>>, b: Seq<Seq<Seq<char>>>)
    ensures
        declared_nameservers(a + b) == declared_nameservers(a) + declared_nameservers(b),
    decreases b.len(),
{
    if b.len() == 0 {
        assert(a + b =~= a);
        assert(declared_nameservers(a) + declared_nameservers(b) =~= declared_nameservers(a));
    } else {
        let front = b.drop_last();
        lemma_declared_nameservers_concat(a, front);
        assert((a + b).drop_last() =~= a + front);
        assert((a + b).last() == b.last());
        assert(declared_nameservers(a + b) =~= declared_nameservers(a) + declared_nameservers(b));
    }
}

/// The resolvers are the second words of the lines that declare one, all
/// of them, in order: one per such line.
pub proof fn lemma_declared_nameservers_are_filtered(lines: Seq<Seq<Seq<char>>>)
    ensures
        declared_nameservers(lines) == lines.filter(
            |l: Seq<Seq<char>>| is_nameserver_line(l),
        ).map_values(|l: Seq<Seq<char>>| second_word(l)),
        declared_nameservers(lines).len() == lines.filter(
            |l: Seq<Seq<char>>| is_nameserver_line(l),
        ).len(),
    decreases lines.len(),
{
    let pred = |l: Seq<Seq<char>>| is_nameserver_line(l);
    if lines.len() == 0 {
        assert(lines.filter(pred) =~= Seq::<Seq<Seq<char>>>::empty());
        assert(lines.filter(pred).map_values(|l: Seq<Seq<char>>| second_word(l)) =~= Seq::<
            Seq<char>,
        >::empty());
    } else {
        let front = lines.drop_last();
        let line = lines.last();
        lemma_declared_nameservers_are_filtered(front);
        assert(front.push(line) =~= lines);
        front.lemma_filter_push(line, pred);
        let f = |l: Seq<Seq<char>>| second_word(l);
        if pred(line) {
            assert(front.filter(pred).push(line).map_values(f) =~= front.filter(pred).map_values(
                f,
            ).push(line[1]));
        }
    }
}

/// Reads the resolver addresses, as written, that the contents of
/// `resolv.conf` declare.
pub fn nameserver_entries(contents: &str) -> (r: Vec<String>)
    ensures
        texts(r@) == declared_nameservers(line_words(contents@)),
        texts(r@) == line_words(contents@).filter(
            |l: Seq<Seq<char>>| is_nameserver_line(l),
        ).map_values(|l: Seq<Seq<char>>| second_word(l)),
{
    proof {
        lemma_declared_nameservers_are_filtered(line_words(contents@));
    }
    let lines = split_line_words(contents);
    let ghost spec_lines = line_words(contents@);
    let mut entries: Vec<String> = Vec::new();
    let mut i: usize = 0;
    assert(spec_lines.take(0) =~= Seq::<Seq<Seq<char>>>::empty());
    assert(texts(entries@) =~= Seq::<Seq<char>>::empty());
    while i < lines.len()
        invariant
            lines@.len() == spec_lines.len(),
            forall|k: int| 0 <= k < lines@.len() ==> texts(#[trigger] lines@[k]@) == spec_lines[k],
            i <= lines@.len(),
            texts(entries@) == declared_nameservers(spec_lines.take(i as int)),
        decreases lines.len() - i,
    {
        let words = &lines[i];
        let ghost line = spec_lines[i as int];
        assert(spec_lines.take(i + 1).drop_last() =~= spec_lines.take(i as int));
        assert(spec_lines.take(i + 1).last() == line);
        assert(texts(words@) == line);
        let ghost before = texts(entries@);
        if words.len() >= 2 && text_equals(words[0].as_str(), "nameserver") {
            assert(line[0] == words@[0]@ && line[1] == words@[1]@);
            let address = words[1].clone();
            entries.push(address);
            assert(texts(entries@) =~= before.push(line[1]));
        } else {
            proof {
                if words@.len() >= 2 {
                    assert(line[0] == words@[0]@);
                }
            }
        }
        i = i + 1;
    }
    assert(spec_lines.take(lines@.len() as int) =~= spec_lines);
    entries
}

} // verus!

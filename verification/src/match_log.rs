//! The log of a match as it is kept in a file: one entry to a line.

use vstd::prelude::*;

verus! {

/// `String::push`: the text with one character more.
pub assume_specification[ String::push ](text: &mut String, c: char)
    ensures
        final(text)@ == old(text)@.push(c),
;

/// The text of a log: each entry and a line feed after it.
pub open spec fn log_text(entries: Seq<Seq<char>>) -> Seq<char>
    decreases entries.len(),
{
    if entries.len() == 0 {
        Seq::empty()
    } else {
        log_text(entries.drop_last()) + entries.last().push('\n')
    }
}

/// A line without the carriage return that it may end in.
pub open spec fn without_return(line: Seq<char>) -> Seq<char> {
    if line.len() > 0 && line.last() == '\r' {
        line.drop_last()
    } else {
        line
    }
}

/// Where the first line feed stands.
pub open spec fn is_first_feed(text: Seq<char>, at: int) -> bool {
    &&& 0 <= at < text.len()
    &&& text[at] == '\n'
    &&& forall|i: int| 0 <= i < at ==> text[i] != '\n'
}

/// The lines of a text. A line ends at a line feed, with or without a carriage return before it; what
/// follows the last line feed is a line too, unless it is empty.
pub open spec fn log_lines(text: Seq<char>) -> Seq<Seq<char>>
    decreases text.len(),
{
    if text.len() == 0 {
        Seq::empty()
    } else if exists|at: int| is_first_feed(text, at) {
        let at = choose|at: int| is_first_feed(text, at);
        if 0 <= at < text.len() {
            seq![without_return(text.take(at))] + log_lines(text.skip(at + 1))
        } else {
            Seq::empty()
        }
    } else {
        seq![text]
    }
}

/// What a list of texts says.
pub open spec fn texts(list: Seq<String>) -> Seq<Seq<char>> {
    list.map_values(|text: String| text@)
}

/// An entry that comes back as it was: it is one line, and does not end in a carriage return.
pub open spec fn is_line(entry: Seq<char>) -> bool {
    &&& forall|i: int| 0 <= i < entry.len() ==> entry[i] != '\n'
    &&& entry.len() > 0 ==> entry.last() != '\r'
}

/// The first line of a text that begins with a line.
proof fn lemma_first_line(line: Seq<char>, rest: Seq<char>)
    requires
        forall|i: int| 0 <= i < line.len() ==> line[i] != '\n',
    ensures
        log_lines(line.push('\n') + rest) == seq![without_return(line)] + log_lines(rest),
{
    let text = line.push('\n') + rest;
    assert(is_first_feed(text, line.len() as int));
    let at = choose|at: int| is_first_feed(text, at);
    assert(is_first_feed(text, at));
    assert(at == line.len());
    assert(text.take(at) =~= line);
    assert(text.skip(at + 1) =~= rest);
}

/// The lines before a line feed do not depend on what follows it.
proof fn lemma_lines_append(text: Seq<char>, rest: Seq<char>)
    requires
        text.len() > 0 ==> text.last() == '\n',
    ensures
        log_lines(text + rest) == log_lines(text) + log_lines(rest),
    decreases text.len(),
{
    if text.len() == 0 {
        assert(text + rest =~= rest);
        assert(log_lines(text) + log_lines(rest) =~= log_lines(rest));
    } else {
        let at = lemma_first_feed(text, text.len() - 1);
        let line = text.take(at);
        let tail = text.skip(at + 1);
        assert(text =~= line.push('\n') + tail);
        lemma_first_line(line, tail);
        assert(text + rest =~= line.push('\n') + (tail + rest));
        lemma_first_line(line, tail + rest);
        if tail.len() > 0 {
            assert(tail.last() == text.last());
        }
        lemma_lines_append(tail, rest);
        assert(seq![without_return(line)] + (log_lines(tail) + log_lines(rest)) =~= (
        seq![without_return(line)] + log_lines(tail)) + log_lines(rest));
    }
}

/// A text with a line feed in it has a first one.
proof fn lemma_first_feed(text: Seq<char>, some: int) -> (at: int)
    requires
        0 <= some < text.len(),
        text[some] == '\n',
    ensures
        is_first_feed(text, at),
        at <= some,
    decreases some,
{
    if exists|i: int| 0 <= i < some && text[i] == '\n' {
        let i = choose|i: int| 0 <= i < some && text[i] == '\n';
        lemma_first_feed(text, i)
    } else {
        some
    }
}

/// The text of a log ends in a line feed.
proof fn lemma_log_text_end(entries: Seq<Seq<char>>)
    ensures
        log_text(entries).len() > 0 ==> log_text(entries).last() == '\n',
        log_text(entries).len() == 0 <==> entries.len() == 0,
{
}

/// A log is read as it was written, if each of its entries is a line.
pub proof fn law_log_round_trip(entries: Seq<Seq<char>>)
    requires
        forall|i: int| 0 <= i < entries.len() ==> is_line(#[trigger] entries[i]),
    ensures
        log_lines(log_text(entries)) == entries,
    decreases entries.len(),
{
    if entries.len() > 0 {
        let earlier = entries.drop_last();
        let last = entries.last();
        assert(is_line(entries[entries.len() - 1]));
        assert forall|i: int| 0 <= i < earlier.len() implies is_line(#[trigger] earlier[i]) by {
            assert(is_line(entries[i]));
        }
        law_log_round_trip(earlier);
        lemma_log_text_end(earlier);
        lemma_lines_append(log_text(earlier), last.push('\n'));
        lemma_first_line(last, Seq::empty());
        assert(last.push('\n') + Seq::<char>::empty() =~= last.push('\n'));
        assert(log_lines(Seq::<char>::empty()) =~= Seq::<Seq<char>>::empty());
        assert(log_lines(last.push('\n')) =~= seq![last]);
        assert(earlier + seq![last] =~= entries);
    }
}

/// Writes a log down, one entry to a line.
pub fn encode_match_log(entries: &Vec<String>) -> (text: String)
    ensures
        text@ == log_text(texts(entries@)),
{
    let mut text = String::new();
    let ghost all = texts(entries@);
    let n = entries.len();
    let mut i: usize = 0;
    assert(all.take(0) =~= Seq::<Seq<char>>::empty());
    while i < n
        invariant
            all == texts(entries@),
            n == entries@.len(),
            i <= n,
            text@ == log_text(all.take(i as int)),
        decreases n - i,
    {
        text.append(entries[i].as_str());
        text.push('\n');
        i += 1;
        proof {
            let now = all.take(i as int);
            assert(now.drop_last() =~= all.take(i - 1));
            assert(now.last() == entries@[i - 1]@);
            assert(text@ =~= log_text(now));
        }
    }
    assert(all.take(n as int) =~= all);
    text
}

/// Reads a log, one entry to a line.
pub fn decode_match_log(text: &str) -> (entries: Vec<String>)
    ensures
        texts(entries@) == log_lines(text@),
{
    let mut entries: Vec<String> = Vec::new();
    // the line so far, without a carriage return that may turn out to end it
    let mut line = String::new();
    let mut held_return = false;
    let ghost mut read: Seq<char> = Seq::empty();
    let ghost mut current: Seq<char> = Seq::empty();
    assert(texts(entries@) =~= log_lines(Seq::<char>::empty()));
    for c in chars: text.chars()
        invariant
            chars.seq() == text@,
            read + current == text@.take(chars.index() as int),
            read.len() > 0 ==> read.last() == '\n',
            forall|i: int| 0 <= i < current.len() ==> current[i] != '\n',
            texts(entries@) == log_lines(read),
            current == if held_return {
                line@.push('\r')
            } else {
                line@
            },
            !held_return && line@.len() > 0 ==> line@.last() != '\r',
    {
        let ghost at = chars.index() as int;
        assert(text@.take(at + 1) =~= text@.take(at).push(c));
        if c == '\n' {
            proof {
                lemma_first_line(current, Seq::empty());
                assert(current.push('\n') + Seq::<char>::empty() =~= current.push('\n'));
                lemma_lines_append(read, current.push('\n'));
                assert(log_lines(current.push('\n')) =~= seq![without_return(current)]);
                assert(without_return(current) =~= line@);
                assert(texts(entries@.push(line)) =~= texts(entries@) + seq![line@]);
                assert(read + current.push('\n') =~= (read + current).push('\n'));
                read = read + current.push('\n');
                current = Seq::empty();
            }
            entries.push(line);
            line = String::new();
            held_return = false;
            assert(read + current =~= text@.take(at + 1));
        } else {
            if held_return {
                line.push('\r');
            }
            held_return = c == '\r';
            if !held_return {
                line.push(c);
            }
            proof {
                assert((read + current).push(c) =~= read + current.push(c));
                current = current.push(c);
            }
        }
    }
    assert(text@.take(text@.len() as int) =~= text@);
    if held_return {
        line.push('\r');
    }
    if !line.as_str().is_empty() {
        proof {
            lemma_lines_append(read, current);
            assert(log_lines(current) =~= seq![current]);
            assert(texts(entries@.push(line)) =~= texts(entries@) + seq![line@]);
        }
        entries.push(line);
    } else {
        assert(read =~= text@);
    }
    entries
}

/// The text of a log grows by each entry and a line feed behind it.
pub proof fn law_log_written(entries: Seq<Seq<char>>, entry: Seq<char>)
    ensures
        log_text(Seq::empty()) == Seq::<char>::empty(),
        log_text(entries.push(entry)) == log_text(entries) + entry + seq!['\n'],
{
    assert(entries.push(entry).drop_last() =~= entries);
    assert(log_text(entries) + entry.push('\n') =~= log_text(entries) + entry + seq!['\n']);
}

/// A log is read line by line: what stands before the first line feed is its first entry, without a carriage
/// return at its end, and the rest is read from behind that line feed.
pub proof fn law_log_read(line: Seq<char>, rest: Seq<char>)
    requires
        forall|i: int| 0 <= i < line.len() ==> line[i] != '\n',
    ensures
        log_lines(Seq::empty()) == Seq::<Seq<char>>::empty(),
        line.len() > 0 ==> log_lines(line) == seq![line],
        line.len() > 0 && line.last() == '\r' ==> log_lines(line + seq!['\n'] + rest)
            == seq![line.drop_last()] + log_lines(rest),
        line.len() == 0 || line.last() != '\r' ==> log_lines(line + seq!['\n'] + rest) == seq![line]
            + log_lines(rest),
{
    lemma_first_line(line, rest);
    assert(line + seq!['\n'] + rest =~= line.push('\n') + rest);
}

/// A list of texts says what each of them says, in order.
pub proof fn law_texts(list: Seq<String>)
    ensures
        texts(list).len() == list.len(),
        forall|i: int| 0 <= i < list.len() ==> #[trigger] texts(list)[i] == list[i]@,
{
}

} // verus!

//! Reports: the text that a statistics package is written out as.

use crate::frequency::WordFreq;
use crate::longest::{LongestItem, LongestItemView};
use crate::stats::StatsPackage;
use vstd::prelude::*;
use vstd::string::*;

verus! {

/// The character of one decimal digit.
pub open spec fn digit(d: nat) -> char {
    ('0' as u8 + d) as char
}

/// The decimal form of a number: no sign, no leading zero, `0` for zero.
pub open spec fn decimal(n: nat) -> Seq<char>
    decreases n,
{
    if n < 10 {
        seq![digit(n)]
    } else {
        decimal(n / 10).push(digit(n % 10))
    }
}

/// The line of one word: the word, a colon and a space, its count.
pub open spec fn entry_line(entry: (Seq<char>, u32)) -> Seq<char> {
    entry.0 + ": "@ + decimal(entry.1 as nat) + "\n"@
}

/// The lines of a frequency table, one for each word, in the table's order.
pub open spec fn entry_lines(entries: Seq<(Seq<char>, u32)>) -> Seq<char>
    decreases entries.len(),
{
    if entries.len() == 0 {
        Seq::empty()
    } else {
        entry_lines(entries.drop_last()) + entry_line(entries.last())
    }
}

/// The three lines of a longest record: title, place and size.
pub open spec fn record_lines(record: LongestItemView) -> Seq<char> {
    "Title: "@ + record.title + "\nPath: "@ + record.path + "\nSize: "@ + decimal(record.size)
        + "\n"@
}

/// The plain report: the four sections in their fixed order, each under its
/// heading and an empty line.
pub open spec fn plain_report(
    written: Seq<(Seq<char>, u32)>,
    lower: Seq<(Seq<char>, u32)>,
    article: LongestItemView,
    title: LongestItemView,
) -> Seq<char> {
    "\tWords frequency (as written)\n\n"@ + entry_lines(written)
        + "\tWords frequency (lowercase)\n\n"@ + entry_lines(lower) + "\tLongest article\n\n"@
        + record_lines(article) + "\tLongest title\n\n"@ + record_lines(title)
}

/// The structured report: the four sections in their fixed order, each the
/// heading and then the section's body as it was serialised elsewhere.
pub open spec fn structured_report(
    written: Seq<char>,
    lower: Seq<char>,
    article: Seq<char>,
    title: Seq<char>,
) -> Seq<char> {
    "\tWords frequency (as written)\n"@ + written + "\n\tWords frequency (lowercase)\n"@ + lower
        + "\n\tLongest article\n"@ + article + "\n\tLongest title\n"@ + title
}

/// Appends the decimal form of `n` to `out`.
pub fn push_decimal(out: &mut String, n: u64)
    ensures
        final(out)@ == old(out)@ + decimal(n as nat),
    decreases n,
{
    if n >= 10 {
        push_decimal(out, n / 10);
    }
    let d: u8 = (n % 10) as u8;
    out.push((48u8 + d) as char);
    proof {
        if n >= 10 {
            assert(out@ =~= old(out)@ + decimal(n as nat));
        } else {
            assert(out@ =~= old(out)@ + decimal(n as nat));
        }
    }
}

/// Appends the lines of a frequency table to `out`.
fn push_entries(out: &mut String, entries: &Vec<WordFreq>)
    ensures
        final(out)@ == old(out)@ + entry_lines(entries@.map_values(|e: WordFreq| e@)),
{
    let ghost listed = entries@.map_values(|e: WordFreq| e@);
    let mut i: usize = 0;
    assert(entry_lines(listed.take(0)) =~= Seq::<char>::empty());
    assert(out@ =~= old(out)@ + entry_lines(listed.take(0)));
    while i < entries.len()
        invariant
            0 <= i <= entries@.len(),
            listed == entries@.map_values(|e: WordFreq| e@),
            out@ == old(out)@ + entry_lines(listed.take(i as int)),
        decreases entries@.len() - i,
    {
        let ghost before = out@;
        let entry = &entries[i];
        out.append(entry.word());
        out.append(": ");
        push_decimal(out, entry.appearances() as u64);
        out.append("\n");
        proof {
            let next = listed.take(i + 1);
            assert(next.drop_last() =~= listed.take(i as int));
            assert(next.last() == entry@);
            assert(out@ =~= before + entry_line(entry@));
            assert(out@ =~= old(out)@ + entry_lines(next));
        }
        i += 1;
    }
    proof {
        assert(listed.take(i as int) =~= listed);
    }
}

/// Appends the three lines of a longest record to `out`.
fn push_record(out: &mut String, record: &LongestItem)
    ensures
        final(out)@ == old(out)@ + record_lines(record@),
{
    out.append("Title: ");
    out.append(record.title());
    out.append("\nPath: ");
    out.append(record.path());
    out.append("\nSize: ");
    push_decimal(out, record.size() as u64);
    out.append("\n");
    assert(out@ =~= old(out)@ + record_lines(record@));
}

/// The plain report of a package.
pub fn render_plain(stats: &StatsPackage) -> (text: String)
    requires
        stats.wf(),
    ensures
        text@ == plain_report(
            stats.written_table().listing(),
            stats.lower_table().listing(),
            stats@.longest_article,
            stats@.longest_title,
        ),
{
    let written = stats.words_freq().entries();
    let lower = stats.low_words_freq().entries();
    proof {
        assert(written@.map_values(|e: WordFreq| e@) =~= stats.written_table().listing());
        assert(lower@.map_values(|e: WordFreq| e@) =~= stats.lower_table().listing());
    }
    let mut text = String::new();
    text.append("\tWords frequency (as written)\n\n");
    push_entries(&mut text, &written);
    text.append("\tWords frequency (lowercase)\n\n");
    push_entries(&mut text, &lower);
    text.append("\tLongest article\n\n");
    push_record(&mut text, stats.longest_article());
    text.append("\tLongest title\n\n");
    push_record(&mut text, stats.longest_title());
    proof {
        assert(text@ =~= plain_report(
            stats.written_table().listing(),
            stats.lower_table().listing(),
            stats@.longest_article,
            stats@.longest_title,
        ));
    }
    text
}

/// The structured report, put together from the four sections' bodies.
pub fn render_structured(written: &str, lower: &str, article: &str, title: &str) -> (text: String)
    ensures
        text@ == structured_report(written@, lower@, article@, title@),
{
    let mut text = String::new();
    text.append("\tWords frequency (as written)\n");
    text.append(written);
    text.append("\n\tWords frequency (lowercase)\n");
    text.append(lower);
    text.append("\n\tLongest article\n");
    text.append(article);
    text.append("\n\tLongest title\n");
    text.append(title);
    assert(text@ =~= structured_report(written@, lower@, article@, title@));
    text
}

} // verus!

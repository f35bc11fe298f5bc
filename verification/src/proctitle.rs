//! The title of the process, as other programs see it: the memory of its
//! command line is written over with live information.

use vstd::prelude::*;
use vstd::utf8::encode_utf8;

use crate::text::{chars_of, decimal, decimal_parses_back, parse_unsigned, parse_usize};

verus! {

/// What the memory of the command line holds under a title: the title as far
/// as there is room, and zeros, of which there is at least one.
pub open spec fn title_region(title: Seq<u8>, len: nat) -> Seq<u8> {
    Seq::new(
        len,
        |i: int|
            if i < title.len() && i < len - 1 {
                title[i]
            } else {
                0
            },
    )
}

/// The bytes to write over the `len` bytes of the command line.
pub fn set(title: &str, len: usize) -> (region: Vec<u8>)
    ensures
        region@ == title_region(encode_utf8(title@), len as nat),
{
    let bytes = title.as_bytes();
    let mut region: Vec<u8> = Vec::new();
    let mut i: usize = 0;
    while i < len
        invariant
            i <= len,
            bytes@ == encode_utf8(title@),
            region@ == title_region(bytes@, len as nat).take(i as int),
        decreases len - i,
    {
        if i < bytes.len() && i < len - 1 {
            region.push(bytes[i]);
        } else {
            region.push(0);
        }
        i = i + 1;
        assert(region@ =~= title_region(bytes@, len as nat).take(i as int));
    }
    assert(region@ =~= title_region(bytes@, len as nat));
    region
}

/// The title ends within the region, which always ends in a zero.
pub proof fn title_is_terminated(title: Seq<u8>, len: nat)
    requires
        len > 0,
    ensures
        title_region(title, len).len() == len,
        title_region(title, len).last() == 0,
        title.len() < len ==> title_region(title, len).take(title.len() as int) == title,
{
    if title.len() < len {
        assert(title_region(title, len).take(title.len() as int) =~= title);
    }
}

/// White space, as Unicode has it.
pub open spec fn is_space(c: char) -> bool {
    let n = c as int;
    ||| 0x9 <= n <= 0xD
    ||| n == 0x20
    ||| n == 0x85
    ||| n == 0xA0
    ||| n == 0x1680
    ||| 0x2000 <= n <= 0x200A
    ||| n == 0x2028
    ||| n == 0x2029
    ||| n == 0x202F
    ||| n == 0x205F
    ||| n == 0x3000
}

fn space(c: char) -> (yes: bool)
    ensures
        yes == is_space(c),
{
    let n: u32 = c as u32;
    (0x9 <= n && n <= 0xD) || n == 0x20 || n == 0x85 || n == 0xA0 || n == 0x1680 || (0x2000 <= n
        && n <= 0x200A) || n == 0x2028 || n == 0x2029 || n == 0x202F || n == 0x205F || n == 0x3000
}

/// The words of a text: what stands between white space.
pub open spec fn words(s: Seq<char>) -> Seq<Seq<char>>
    decreases s.len(),
{
    if s.len() == 0 {
        Seq::empty()
    } else {
        let before = words(s.drop_last());
        if is_space(s.last()) {
            before
        } else if s.len() >= 2 && !is_space(s[s.len() - 2]) && before.len() > 0 {
            before.drop_last().push(before.last().push(s.last()))
        } else {
            before.push(seq![s.last()])
        }
    }
}

/// The position of the last closing parenthesis.
pub open spec fn last_paren(s: Seq<char>) -> Option<int>
    decreases s.len(),
{
    if s.len() == 0 {
        None
    } else if s.last() == ')' {
        Some(s.len() - 1)
    } else {
        last_paren(s.drop_last())
    }
}

/// The fields of a process's status line behind its name, which stands in
/// parentheses and may hold spaces and parentheses of its own. One byte stands
/// between them.
pub open spec fn stat_fields(stat: Seq<char>) -> Option<Seq<Seq<char>>> {
    match last_paren(stat) {
        None => None,
        Some(i) => if i + 1 >= stat.len() || stat[i + 1] as int >= 0x80 {
            None
        } else {
            Some(words(stat.skip(i + 2)))
        },
    }
}

/// Where the memory of the command line begins and ends, as a process's status
/// line says.
pub open spec fn arg_bounds(stat: Seq<char>) -> Option<(nat, nat)> {
    match stat_fields(stat) {
        None => None,
        Some(fields) => if fields.len() <= 46 {
            None
        } else {
            match (
                parse_unsigned(fields[45], usize::MAX as nat),
                parse_unsigned(fields[46], usize::MAX as nat),
            ) {
                (Some(start), Some(end)) => if end > start {
                    Some((start, end))
                } else {
                    None
                },
                _ => None,
            }
        },
    }
}

/// The views of a list of words.
pub open spec fn word_views(list: Seq<String>) -> Seq<Seq<char>> {
    Seq::new(list.len(), |i: int| list[i]@)
}

/// Splits text in words.
fn split_words(chars: &Vec<char>, from: usize) -> (list: Vec<String>)
    requires
        from <= chars@.len(),
    ensures
        word_views(list@) == words(chars@.skip(from as int)),
{
    let ghost all = chars@.skip(from as int);
    let mut list: Vec<String> = Vec::new();
    let mut in_word = false;
    let mut i: usize = from;
    assert(word_views(list@) =~= words(all.take(0)));
    while i < chars.len()
        invariant
            from <= i <= chars@.len(),
            all == chars@.skip(from as int),
            word_views(list@) == words(all.take(i - from)),
            in_word == (i > from && !is_space(chars@[i - 1])),
            in_word ==> list@.len() > 0,
        decreases chars@.len() - i,
    {
        let c = chars[i];
        let ghost next = all.take(i + 1 - from);
        assert(next.drop_last() =~= all.take(i - from));
        assert(next.last() == c);
        if space(c) {
            in_word = false;
        } else if in_word {
            assert(next[next.len() - 2] == chars@[i - 1]);
            if let Some(mut word) = list.pop() {
                word.push(c);
                list.push(word);
            }
            assert(word_views(list@) =~= words(next));
        } else {
            let mut word = String::new();
            word.push(c);
            let ghost single = word@;
            assert(single =~= seq![c]);
            list.push(word);
            in_word = true;
            assert(next.len() >= 2 ==> next[next.len() - 2] == chars@[i - 1]);
            assert(word_views(list@) =~= words(next));
        }
        i = i + 1;
    }
    assert(all.take(i - from) =~= all);
    list
}

/// Reads where the memory of the command line begins and ends from a process's
/// status line.
pub fn parse_arg_bounds(stat: &str) -> (bounds: Option<(usize, usize)>)
    ensures
        match bounds {
            Some((start, end)) => arg_bounds(stat@) == Some((start as nat, end as nat)),
            None => arg_bounds(stat@) is None,
        },
{
    let chars = chars_of(stat);
    let mut end: usize = chars.len();
    assert(stat@.take(end as int) =~= stat@);
    while end > 0 && chars[end - 1] != ')'
        invariant
            end <= chars@.len(),
            chars@ == stat@,
            last_paren(stat@) == last_paren(stat@.take(end as int)),
        decreases end,
    {
        assert(stat@.take(end as int).drop_last() =~= stat@.take(end - 1));
        end = end - 1;
    }
    if end == 0 {
        return None;
    }
    assert(last_paren(stat@) == Some(end - 1));
    if end >= chars.len() {
        return None;
    }
    let separator: char = chars[end];
    if separator >= '\u{80}' {
        return None;
    }
    let fields = split_words(&chars, end + 1);
    assert(stat_fields(stat@) == Some(word_views(fields@)));
    if fields.len() <= 46 {
        return None;
    }
    assert(word_views(fields@)[45] == fields@[45]@ && word_views(fields@)[46] == fields@[46]@);
    let arg_start: Option<usize> = parse_usize(fields[45].as_str());
    let arg_end: Option<usize> = parse_usize(fields[46].as_str());
    match (arg_start, arg_end) {
        (Some(start), Some(end)) => if end > start {
            Some((start, end))
        } else {
            None
        },
        _ => None,
    }
}

/// The region holds as much of the title as fits before its last byte, and
/// zeros from there on.
pub proof fn titles_are_cut_to_fit(title: Seq<u8>, len: nat, i: int)
    requires
        0 <= i < len,
    ensures
        i < title.len() && i < len - 1 ==> title_region(title, len)[i] == title[i],
        i >= title.len() || i == len - 1 ==> title_region(title, len)[i] == 0,
{
}

/// Words with a space between them.
pub open spec fn spaced(fields: Seq<Seq<char>>) -> Seq<char>
    decreases fields.len(),
{
    if fields.len() == 0 {
        Seq::empty()
    } else if fields.len() == 1 {
        fields[0]
    } else {
        spaced(fields.drop_last()) + seq![' '] + fields.last()
    }
}

/// Whether a text is one word: it is not empty and has no white space in it.
pub open spec fn is_word(s: Seq<char>) -> bool {
    s.len() > 0 && forall|i: int| 0 <= i < s.len() ==> !is_space(#[trigger] s[i])
}

proof fn lemma_word_is_appended(s: Seq<char>, w: Seq<char>)
    requires
        is_word(w),
        s.len() == 0 || is_space(s.last()),
    ensures
        words(s + w) == words(s).push(w),
    decreases w.len(),
{
    let all = s + w;
    let init = w.drop_last();
    assert(all.drop_last() =~= s + init);
    assert(all.last() == w[w.len() - 1]);
    assert(!is_space(w[w.len() - 1]));
    if init.len() == 0 {
        assert(s + init =~= s);
        assert(seq![w.last()] =~= w);
        if all.len() >= 2 {
            assert(all[all.len() - 2] == s.last());
        }
        assert(words(all) =~= words(s).push(w));
    } else {
        assert forall|i: int| 0 <= i < init.len() implies !is_space(#[trigger] init[i]) by {
            assert(init[i] == w[i]);
        }
        lemma_word_is_appended(s, init);
        assert(all[all.len() - 2] == w[w.len() - 2]);
        assert(!is_space(w[w.len() - 2]));
        assert(init.push(w.last()) =~= w);
        assert(words(s).push(init).drop_last() =~= words(s));
        assert(words(all) =~= words(s).push(w));
    }
}

/// Words with a space between them are told apart again.
pub proof fn words_are_told_apart(fields: Seq<Seq<char>>)
    requires
        forall|i: int| 0 <= i < fields.len() ==> is_word(#[trigger] fields[i]),
    ensures
        words(spaced(fields)) == fields,
    decreases fields.len(),
{
    if fields.len() == 0 {
        assert(words(spaced(fields)) =~= fields);
    } else {
        let init = fields.drop_last();
        let last = fields.last();
        assert(is_word(fields[fields.len() - 1]));
        assert forall|i: int| 0 <= i < init.len() implies is_word(#[trigger] init[i]) by {
            assert(init[i] == fields[i]);
        }
        words_are_told_apart(init);
        assert(init.push(last) =~= fields);
        if fields.len() == 1 {
            assert(Seq::<char>::empty() + last =~= last);
            lemma_word_is_appended(Seq::empty(), last);
            assert(words(Seq::<char>::empty()) =~= init);
        } else {
            let head = spaced(init) + seq![' '];
            assert(head.drop_last() =~= spaced(init));
            assert(head.last() == ' ');
            lemma_word_is_appended(head, last);
        }
    }
}

proof fn lemma_last_paren(head: Seq<char>, tail: Seq<char>)
    requires
        !tail.contains(')'),
    ensures
        last_paren(head + seq![')'] + tail) == Some(head.len() as int),
    decreases tail.len(),
{
    let all = head + seq![')'] + tail;
    if tail.len() == 0 {
        assert(all.last() == ')');
    } else {
        let init = tail.drop_last();
        assert(tail.last() == tail[tail.len() - 1]);
        assert(!init.contains(')')) by {
            if init.contains(')') {
                let i = choose|i: int| 0 <= i < init.len() && init[i] == ')';
                assert(tail[i] == ')');
            }
        }
        assert(all.drop_last() =~= head + seq![')'] + init);
        assert(all.last() == tail.last());
        lemma_last_paren(head, init);
    }
}

/// Where the command line lies in memory is read from the fields behind the
/// name, whatever the name holds, also parentheses and spaces: the first of
/// the two is the forty-sixth of them. Fewer fields, or bounds that are not in
/// order, give nothing.
pub proof fn bounds_are_read_behind_the_name(
    head: Seq<char>,
    fields: Seq<Seq<char>>,
    start: nat,
    end: nat,
)
    requires
        forall|i: int| 0 <= i < fields.len() ==> is_word(#[trigger] fields[i]),
        !spaced(fields).contains(')'),
        fields.len() > 45 ==> fields[45] == decimal(start),
        fields.len() > 46 ==> fields[46] == decimal(end),
        start <= usize::MAX,
        end <= usize::MAX,
    ensures
        arg_bounds(head + seq![')', ' '] + spaced(fields)) == if fields.len() > 46 && start < end {
            Some((start, end))
        } else {
            None
        },
{
    let tail = seq![' '] + spaced(fields);
    assert(!tail.contains(')')) by {
        if tail.contains(')') {
            let i = choose|i: int| 0 <= i < tail.len() && tail[i] == ')';
            assert(spaced(fields)[i - 1] == ')');
        }
    }
    let stat = head + seq![')', ' '] + spaced(fields);
    assert(stat =~= head + seq![')'] + tail);
    lemma_last_paren(head, tail);
    assert(stat.skip(head.len() as int + 2) =~= spaced(fields));
    words_are_told_apart(fields);
    decimal_parses_back(start, usize::MAX as nat);
    decimal_parses_back(end, usize::MAX as nat);
}

/// Without a closing parenthesis there is no name, and nothing to read.
pub proof fn lines_without_a_name_give_nothing(stat: Seq<char>)
    requires
        !stat.contains(')'),
    ensures
        arg_bounds(stat) is None,
{
    lemma_no_paren(stat);
}

proof fn lemma_no_paren(s: Seq<char>)
    requires
        !s.contains(')'),
    ensures
        last_paren(s) is None,
    decreases s.len(),
{
    if s.len() > 0 {
        assert(s[s.len() - 1] != ')');
        let init = s.drop_last();
        assert(!init.contains(')')) by {
            if init.contains(')') {
                let i = choose|i: int| 0 <= i < init.len() && init[i] == ')';
                assert(s[i] == ')');
            }
        }
        lemma_no_paren(init);
    }
}

} // verus!

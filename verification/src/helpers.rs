//! Small interface helpers: the modal-dimming flag and plain word
//! wrapping for popup text.

use vstd::prelude::*;
use crate::text::{is_ws_char, is_whitespace_char};
use crate::diff::{tokens_of, line_views};

verus! {

/// Whether a modal is covering the screen, so everything behind it
/// should render dimmed.
pub struct DimmingContext {
    pub modal_visible: bool,
}

impl DimmingContext {
    /// A context with the given modal state.
    pub fn new(modal_visible: bool) -> (r: DimmingContext)
        ensures
            r.modal_visible == modal_visible,
    {
        DimmingContext { modal_visible }
    }
}

/// The sequence holds a space character.
pub open spec fn has_space(s: Seq<char>) -> bool {
    exists|i: int| 0 <= i < s.len() && s[i] == ' '
}

/// How many newline characters the text holds.
pub open spec fn nl_count(s: Seq<char>) -> int
    decreases s.len(),
{
    if s.len() == 0 {
        0
    } else {
        nl_count(s.drop_last()) + (if s.last() == '\n' {
            1int
        } else {
            0int
        })
    }
}

/// Words joined by single spaces.
pub open spec fn join_words(ws: Seq<Seq<char>>) -> Seq<char>
    decreases ws.len(),
{
    if ws.len() == 0 {
        Seq::<char>::empty()
    } else if ws.len() == 1 {
        ws[0]
    } else {
        ws[0] + seq![' '] + join_words(ws.skip(1))
    }
}

/// The lines split the word list in order: each line is the
/// single-space join of one consecutive chunk of the words, and the
/// chunks together cover every word.
pub open spec fn lines_carry_words(lines: Seq<Seq<char>>, words: Seq<Seq<char>>) -> bool
    decreases lines.len(),
{
    if lines.len() == 0 {
        words.len() == 0
    } else {
        exists|n: int|
            0 <= n <= words.len() && lines[0] == join_words(#[trigger] words.take(n))
                && lines_carry_words(lines.skip(1), words.skip(n))
    }
}

proof fn lemma_join_snoc(ws: Seq<Seq<char>>, w: Seq<char>)
    requires
        ws.len() >= 1,
    ensures
        join_words(ws.push(w)) == join_words(ws) + seq![' '] + w,
    decreases ws.len(),
{
    if ws.len() == 1 {
        assert(ws.push(w)[0] == ws[0]);
        assert(ws.push(w).skip(1) =~= seq![w]);
        assert(join_words(seq![w]) == w);
        assert(join_words(ws) == ws[0]);
    } else {
        lemma_join_snoc(ws.skip(1), w);
        assert(ws.push(w).skip(1) =~= ws.skip(1).push(w));
        assert(ws.push(w)[0] == ws[0]);
        assert(ws[0] + seq![' '] + (join_words(ws.skip(1)) + seq![' '] + w) =~= (ws[0] + seq![' ']
            + join_words(ws.skip(1))) + seq![' '] + w);
    }
}

proof fn lemma_carry_snoc(
    lines: Seq<Seq<char>>,
    words: Seq<Seq<char>>,
    line: Seq<char>,
    cw: Seq<Seq<char>>,
)
    requires
        lines_carry_words(lines, words),
        line == join_words(cw),
    ensures
        lines_carry_words(lines.push(line), words + cw),
    decreases lines.len(),
{
    if lines.len() == 0 {
        assert(words + cw =~= cw);
        assert(lines.push(line)[0] == line);
        assert(lines.push(line).skip(1) =~= Seq::<Seq<char>>::empty());
        assert((words + cw).take(cw.len() as int) =~= cw);
        assert((words + cw).skip(cw.len() as int) =~= Seq::<Seq<char>>::empty());
        assert(0 <= cw.len() as int <= (words + cw).len() && lines.push(line)[0] == join_words(
            (words + cw).take(cw.len() as int),
        ) && lines_carry_words(lines.push(line).skip(1), (words + cw).skip(cw.len() as int)));
    } else {
        let n = choose|n: int|
            0 <= n <= words.len() && lines[0] == join_words(#[trigger] words.take(n))
                && lines_carry_words(lines.skip(1), words.skip(n));
        lemma_carry_snoc(lines.skip(1), words.skip(n), line, cw);
        assert(lines.push(line).skip(1) =~= lines.skip(1).push(line));
        assert(words.skip(n) + cw =~= (words + cw).skip(n));
        assert((words + cw).take(n) =~= words.take(n));
        assert(lines.push(line)[0] == lines[0]);
        assert(0 <= n <= (words + cw).len() && lines.push(line)[0] == join_words(
            (words + cw).take(n),
        ) && lines_carry_words(lines.push(line).skip(1), (words + cw).skip(n)));
    }
    assert(lines_carry_words(lines.push(line), words + cw));
}

/// Wrap text to the given width: paragraphs split at newlines, words are
/// packed greedily with single spaces between them. Every produced line
/// fits the width unless it is a single unbreakable word, in which case
/// it holds no space at all; text holding any word at all yields at
/// least one line, and every paragraph break yields one; the lines
/// carry the text's whitespace-delimited words, in order, each line the
/// single-space join of its chunk.
pub fn wrap_text(text: &str, max_width: usize) -> (lines: Vec<String>)
    ensures
        forall|k: int| 0 <= k < lines@.len() ==> (#[trigger] lines@[k])@.len() <= max_width
            || !has_space(lines@[k]@),
        (exists|q: int| 0 <= q < text@.len() && !is_ws_char(text@[q])) ==> lines@.len() >= 1,
        lines_carry_words(line_views(lines@), tokens_of(text@)),
        lines@.len() >= nl_count(text@),
{
    let mut lines: Vec<String> = Vec::new();
    let len = text.unicode_len();
    let mut i: usize = 0;
    // Current line: its text and whether it already holds a word.
    let mut current = String::new();
    let mut current_has_word = false;
    let ghost mut gw = Seq::<Seq<char>>::empty();
    let ghost mut fw = Seq::<Seq<char>>::empty();
    let ghost mut cw = Seq::<Seq<char>>::empty();
    proof {
        reveal_strlit(" ");
        assert(tokens_of(text@.take(0)) =~= Seq::<Seq<char>>::empty());
        assert(fw + cw =~= gw);
        assert(join_words(cw) =~= Seq::<char>::empty());
        assert(line_views(lines@).len() == 0);
    }
    while i < len
        invariant
            0 <= i <= len,
            len == text@.len(),
            (" ")@ == seq![' '],
            current@.len() <= max_width || !has_space(current@),
            !current_has_word ==> current@.len() == 0,
            forall|k: int| 0 <= k < lines@.len() ==> (#[trigger] lines@[k])@.len() <= max_width
                || !has_space(lines@[k]@),
            lines@.len() == 0 && !current_has_word ==> forall|q: int|
                0 <= q < i ==> is_ws_char(#[trigger] text@[q]),
            gw == tokens_of(text@.take(i as int)),
            fw + cw == gw,
            current@ == join_words(cw),
            current_has_word <==> cw.len() >= 1,
            lines_carry_words(line_views(lines@), fw),
            lines@.len() >= nl_count(text@.take(i as int)),
            i == len || i == 0 || is_ws_char(text@[i - 1]) || is_ws_char(text@[i as int]),
        decreases len - i,
    {
        let c = text.get_char(i);
        if c == '\n' {
            // Paragraph break: flush the line, and keep an empty line
            // for an empty paragraph.
            let ghost lines0 = lines@;
            let ghost cur0 = current@;
            if current_has_word {
                lines.push(current);
            } else {
                lines.push(String::new());
            }
            proof {
                let lv = if current_has_word {
                    cur0
                } else {
                    Seq::<char>::empty()
                };
                assert(lv == join_words(cw));
                lemma_carry_snoc(line_views(lines0), fw, lv, cw);
                fw = fw + cw;
                cw = Seq::<Seq<char>>::empty();
                assert(line_views(lines@) =~= line_views(lines0).push(lv));
                assert(fw + cw =~= fw);
                assert(join_words(cw) =~= Seq::<char>::empty());
            }
            current = String::new();
            current_has_word = false;
            i += 1;
            proof {
                assert(text@.take(i as int).drop_last() =~= text@.take(i - 1));
                assert(text@.take(i as int).last() == text@[i - 1]);
                assert(is_ws_char(text@[i - 1]));
            }
        } else if is_whitespace_char(c) {
            i += 1;
            proof {
                assert(text@.take(i as int).drop_last() =~= text@.take(i - 1));
                assert(text@.take(i as int).last() == text@[i - 1]);
            }
        } else {
            // A word: scan to its end.
            let start = i;
            let mut j = i + 1;
            proof {
                assert(!is_ws_char(text@[start as int]));
                assert(text@.take(j as int).drop_last() =~= text@.take(start as int));
                assert(text@.take(j as int).last() == text@[start as int]);
                assert(text@.subrange(start as int, j as int) =~= seq![text@[start as int]]);
                assert(tokens_of(text@.take(j as int)) == gw.push(
                    text@.subrange(start as int, j as int),
                ));
            }
            while j < len && !is_whitespace_char(text.get_char(j))
                invariant
                    start < j <= len,
                    len == text@.len(),
                    start == 0 || is_ws_char(text@[start - 1]),
                    forall|q: int| start <= q < j ==> !is_ws_char(#[trigger] text@[q]),
                    tokens_of(text@.take(j as int)) == gw.push(
                        text@.subrange(start as int, j as int),
                    ),
                    nl_count(text@.take(j as int)) == nl_count(text@.take(start as int)),
                decreases len - j,
            {
                j += 1;
                proof {
                    assert(text@.take(j as int).drop_last() =~= text@.take(j - 1));
                    assert(text@.take(j as int).last() == text@[j - 1]);
                    let prev = tokens_of(text@.take(j - 1));
                    assert(prev == gw.push(text@.subrange(start as int, j - 1)));
                    assert(!is_ws_char(text@[j - 2]));
                    assert(prev.last() == text@.subrange(start as int, j - 1));
                    assert(prev.update(prev.len() - 1, prev.last().push(text@[j - 1])) =~=
                        gw.push(text@.subrange(start as int, j as int))) by {
                        assert(text@.subrange(start as int, j - 1).push(text@[j - 1]) =~=
                            text@.subrange(start as int, j as int));
                    }
                }
            }
            let word = text.substring_char(start, j);
            let word_len = j - start;
            proof {
                assert(word@ == text@.subrange(start as int, j as int));
                assert(!has_space(word@)) by {
                    if has_space(word@) {
                        let q = choose|q: int| 0 <= q < word@.len() && word@[q] == ' ';
                        assert(word@[q] == text@[start + q]);
                        assert(is_ws_char(' '));
                    }
                }
                assert(word@.len() == word_len);
            }
            if !current_has_word {
                let ghost w0 = word@;
                current = word.to_owned();
                current_has_word = true;
                proof {
                    cw = seq![w0];
                    assert(join_words(cw) == w0);
                }
            } else {
                let cur_len = current.as_str().unicode_len();
                if cur_len < max_width && word_len <= max_width - cur_len - 1 {
                    let ghost cw0 = cw;
                    current.append(" ");
                    current.append(word);
                    proof {
                        assert(current@.len() == cur_len + 1 + word_len);
                        assert(current@.len() <= max_width);
                        lemma_join_snoc(cw0, word@);
                        cw = cw0.push(word@);
                        assert(current@ =~= join_words(cw));
                    }
                } else {
                    let ghost lines0 = lines@;
                    let ghost cur0 = current@;
                    lines.push(current);
                    current = word.to_owned();
                    current_has_word = true;
                    proof {
                        lemma_carry_snoc(line_views(lines0), fw, cur0, cw);
                        fw = fw + cw;
                        cw = seq![word@];
                        assert(line_views(lines@) =~= line_views(lines0).push(cur0));
                        assert(join_words(cw) == word@);
                    }
                }
            }
            i = j;
            proof {
                gw = gw.push(word@);
                assert(gw == tokens_of(text@.take(i as int)));
                assert(fw + cw =~= gw);
            }
        }
    }
    let ghost lines0 = lines@;
    let ghost cur0 = current@;
    if current_has_word {
        lines.push(current);
        proof {
            lemma_carry_snoc(line_views(lines0), fw, cur0, cw);
            fw = fw + cw;
            assert(line_views(lines@) =~= line_views(lines0).push(cur0));
        }
    } else {
        proof {
            assert(fw + cw =~= fw);
        }
    }
    proof {
        assert(text@.take(len as int) =~= text@);
        assert(lines_carry_words(line_views(lines@), tokens_of(text@)));
    }
    lines
}

} // verus!

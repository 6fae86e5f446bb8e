//! Word wrapping of chat text for a terminal of a given width.

use vstd::prelude::*;
use vstd::seq_lib::lemma_flatten_concat;
use crate::scanner::split_chars;
use crate::scanner::split_on;
use crate::text::chars_of;
use crate::text::is_white_space;
use crate::text::is_whitespace;
use crate::text::string_from_chars;

verus! {

/// The words left to find in `s` when `cur` has been read of the current
/// word: maximal runs of characters that are not whitespace.
pub open spec fn words_from(s: Seq<char>, cur: Seq<char>) -> Seq<Seq<char>>
    decreases s.len(),
{
    if s.len() == 0 {
        if cur.len() > 0 {
            seq![cur]
        } else {
            seq![]
        }
    } else if is_white_space(s[0]) {
        (if cur.len() > 0 {
            seq![cur]
        } else {
            seq![]
        }) + words_from(s.drop_first(), seq![])
    } else {
        words_from(s.drop_first(), cur.push(s[0]))
    }
}

/// The words of a text, as `str::split_whitespace` yields them.
pub open spec fn words(s: Seq<char>) -> Seq<Seq<char>> {
    words_from(s, seq![])
}

/// A piece without the carriage return that ends it, if one does.
pub open spec fn strip_cr(p: Seq<char>) -> Seq<char> {
    if p.len() > 0 && p.last() == '\r' {
        p.drop_last()
    } else {
        p
    }
}

/// The lines of a text, as `str::lines` yields them: split at each line
/// feed, a carriage return before it dropped, and no empty line after a
/// final line feed.
pub open spec fn text_lines(s: Seq<char>) -> Seq<Seq<char>> {
    let p = split_on(s, '\n');
    let body = p.drop_last().map_values(|q: Seq<char>| strip_cr(q));
    if p.last().len() == 0 {
        body
    } else {
        body.push(p.last())
    }
}

/// The smaller of two numbers.
pub open spec fn min_nat(a: nat, b: nat) -> nat {
    if a <= b {
        a
    } else {
        b
    }
}

/// Breaks a word too long for a line: fills the current line to `width`
/// characters, starts a new line whenever it is full and characters are
/// left, and leaves the last piece as the current line.
pub open spec fn break_word(out: Seq<Seq<char>>, cur: Seq<char>, w: Seq<char>, width: nat) -> (
    Seq<Seq<char>>,
    Seq<char>,
)
    decreases w.len(), cur.len(),
{
    if w.len() == 0 || width == 0 {
        (out, cur)
    } else if cur.len() >= width {
        break_word(out.push(cur), seq![], w, width)
    } else {
        let take = min_nat((width - cur.len()) as nat, w.len());
        let filled = cur + w.take(take as int);
        let rest = w.skip(take as int);
        if filled.len() >= width && rest.len() > 0 {
            break_word(out.push(filled), seq![], rest, width)
        } else {
            break_word(out, filled, rest, width)
        }
    }
}

/// Places one word: on the current line after a space when it fits, else
/// on a new line; a word longer than the width is broken, after a space
/// when the current line holds something.
pub open spec fn place_word(st: (Seq<Seq<char>>, Seq<char>), w: Seq<char>, width: nat) -> (
    Seq<Seq<char>>,
    Seq<char>,
) {
    let out = st.0;
    let cur = st.1;
    if cur.len() == 0 {
        if w.len() <= width {
            (out, w)
        } else {
            break_word(out, cur, w, width)
        }
    } else if cur.len() + 1 + w.len() <= width {
        (out, cur.push(' ') + w)
    } else if w.len() <= width {
        (out.push(cur), w)
    } else {
        break_word(out, cur.push(' '), w, width)
    }
}

/// Places the words one after another.
pub open spec fn place_words(st: (Seq<Seq<char>>, Seq<char>), ws: Seq<Seq<char>>, width: nat) -> (
    Seq<Seq<char>>,
    Seq<char>,
)
    decreases ws.len(),
{
    if ws.len() == 0 {
        st
    } else {
        place_word(place_words(st, ws.drop_last(), width), ws.last(), width)
    }
}

/// The screen lines of one line of text: an empty line stays one empty
/// line; otherwise its words placed greedily, the last line kept if it
/// holds something.
pub open spec fn wrap_line(raw: Seq<char>, width: nat) -> Seq<Seq<char>> {
    if raw.len() == 0 {
        seq![seq![]]
    } else {
        let st = place_words((seq![], seq![]), words(raw), width);
        if st.1.len() > 0 {
            st.0.push(st.1)
        } else {
            st.0
        }
    }
}

/// The screen lines of several lines of text, one after another.
pub open spec fn wrap_lines(ls: Seq<Seq<char>>, width: nat) -> Seq<Seq<char>>
    decreases ls.len(),
{
    if ls.len() == 0 {
        seq![]
    } else {
        wrap_lines(ls.drop_last(), width) + wrap_line(ls.last(), width)
    }
}

/// The screen lines of a text at a width; a width of zero leaves the text whole.
pub open spec fn wrap_text(s: Seq<char>, width: nat) -> Seq<Seq<char>> {
    if width == 0 {
        seq![s]
    } else {
        wrap_lines(text_lines(s), width)
    }
}

/// A copy of a run of characters.
fn copy_of(s: &[char]) -> (v: Vec<char>)
    ensures
        v@ == s@,
{
    let mut v: Vec<char> = Vec::new();
    let mut j: usize = 0;
    while j < s.len()
        invariant
            j <= s@.len(),
            v@ == s@.take(j as int),
        decreases s@.len() - j,
    {
        v.push(s[j]);
        j = j + 1;
        assert(v@ =~= s@.take(j as int));
    }
    assert(s@.take(s@.len() as int) =~= s@);
    v
}

/// Splits a line into its words.
pub fn split_words(s: &[char]) -> (v: Vec<Vec<char>>)
    ensures
        v@.map_values(|w: Vec<char>| w@) == words(s@),
{
    let ghost sv = s@;
    let mut v: Vec<Vec<char>> = Vec::new();
    let mut cur: Vec<char> = Vec::new();
    let mut i: usize = 0;
    assert(sv.skip(0) =~= sv);
    while i < s.len()
        invariant
            sv == s@,
            i <= sv.len(),
            v@.map_values(|w: Vec<char>| w@) + words_from(sv.skip(i as int), cur@) == words(sv),
        decreases sv.len() - i,
    {
        let c = s[i];
        let ghost before = v@.map_values(|w: Vec<char>| w@);
        let ghost rest = sv.skip(i as int);
        assert(rest[0] == c);
        assert(rest.drop_first() =~= sv.skip(i + 1));
        if is_whitespace(c) {
            if cur.len() > 0 {
                let ghost cw = cur@;
                v.push(cur);
                cur = Vec::new();
                assert(v@.map_values(|w: Vec<char>| w@) =~= before.push(cw));
                assert(before + (seq![cw] + words_from(sv.skip(i + 1), seq![])) =~= before.push(cw)
                    + words_from(sv.skip(i + 1), seq![]));
            } else {
                assert(seq![] + words_from(sv.skip(i + 1), seq![]) =~= words_from(sv.skip(i + 1), seq![]));
            }
            assert(cur@ =~= Seq::<char>::empty());
        } else {
            cur.push(c);
        }
        i = i + 1;
    }
    if cur.len() > 0 {
        let ghost before = v@.map_values(|w: Vec<char>| w@);
        let ghost cw = cur@;
        v.push(cur);
        assert(v@.map_values(|w: Vec<char>| w@) =~= before + seq![cw]);
    } else {
        assert(v@.map_values(|w: Vec<char>| w@) + seq![] =~= v@.map_values(|w: Vec<char>| w@));
    }
    v
}

/// The lines of a text, as `str::lines` yields them.
pub fn lines_of(s: &str) -> (r: Vec<Vec<char>>)
    ensures
        r@.map_values(|l: Vec<char>| l@) == text_lines(s@),
{
    let pieces = split_chars(s, '\n');
    let ghost p = split_on(s@, '\n');
    let n = pieces.len();
    let mut r: Vec<Vec<char>> = Vec::new();
    let mut k: usize = 0;
    while k + 1 < n
        invariant
            pieces@.map_values(|q: Vec<char>| q@) == p,
            n == pieces@.len(),
            n >= 1,
            k + 1 <= n,
            r@.map_values(|l: Vec<char>| l@) == p.take(k as int).map_values(|q: Seq<char>| strip_cr(q)),
        decreases n - k,
    {
        let q = &pieces[k];
        assert(q@ == p[k as int]);
        let mut line: Vec<char> = Vec::new();
        let mut j: usize = 0;
        let len = if q.len() > 0 && q[q.len() - 1] == '\r' {
            q.len() - 1
        } else {
            q.len()
        };
        while j < len
            invariant
                j <= len,
                len <= q@.len(),
                line@ == q@.take(j as int),
            decreases len - j,
        {
            line.push(q[j]);
            j = j + 1;
            assert(line@ =~= q@.take(j as int));
        }
        assert(line@ =~= strip_cr(q@));
        let ghost before = r@.map_values(|l: Vec<char>| l@);
        r.push(line);
        assert(r@.map_values(|l: Vec<char>| l@) =~= before.push(strip_cr(p[k as int])));
        assert(p.take(k + 1).map_values(|q: Seq<char>| strip_cr(q)) =~= p.take(k as int).map_values(
            |q: Seq<char>| strip_cr(q),
        ).push(strip_cr(p[k as int])));
        k = k + 1;
    }
    assert(p.take(k as int) =~= p.drop_last());
    let last = &pieces[n - 1];
    assert(last@ == p.last());
    if last.len() > 0 {
        let ghost before = r@.map_values(|l: Vec<char>| l@);
        let copy = copy_of(last.as_slice());
        r.push(copy);
        assert(r@.map_values(|l: Vec<char>| l@) =~= before.push(p.last()));
    }
    r
}

/// Writes a word too long for a line, breaking it over as many lines as it
/// needs (see `break_word`).
fn push_breaking(out: &mut Vec<Vec<char>>, cur: &mut Vec<char>, word: &[char], width: usize)
    requires
        width > 0,
    ensures
        (final(out)@.map_values(|l: Vec<char>| l@), final(cur)@) == break_word(
            old(out)@.map_values(|l: Vec<char>| l@),
            old(cur)@,
            word@,
            width as nat,
        ),
{
    let ghost target = break_word(out@.map_values(|l: Vec<char>| l@), cur@, word@, width as nat);
    let n = word.len();
    let mut i: usize = 0;
    assert(word@.skip(0) =~= word@);
    while i < n
        invariant
            width > 0,
            n == word@.len(),
            i <= n,
            target == break_word(out@.map_values(|l: Vec<char>| l@), cur@, word@.skip(i as int), width as nat),
        decreases n - i,
    {
        let ghost w0 = word@.skip(i as int);
        assert(w0.len() > 0);
        if cur.len() >= width {
            let ghost before = out@.map_values(|l: Vec<char>| l@);
            let ghost c0 = cur@;
            assert(break_word(before, c0, w0, width as nat) == break_word(before.push(c0), seq![], w0, width as nat));
            let mut full: Vec<char> = Vec::new();
            std::mem::swap(&mut full, cur);
            let ghost fv = full@;
            out.push(full);
            assert(out@.map_values(|l: Vec<char>| l@) =~= before.push(fv));
            assert(cur@ =~= Seq::<char>::empty());
        }
        let room = width - cur.len();
        let take = if room <= n - i {
            room
        } else {
            n - i
        };
        let ghost rest = word@.skip(i as int);
        let ghost start = cur@;
        let mut j: usize = 0;
        while j < take
            invariant
                i + take <= n,
                j <= take,
                n == word@.len(),
                rest == word@.skip(i as int),
                cur@ == start + rest.take(j as int),
            decreases take - j,
        {
            cur.push(word[i + j]);
            j = j + 1;
            assert(cur@ =~= start + rest.take(j as int));
        }
        let ghost mid = out@.map_values(|l: Vec<char>| l@);
        assert(target == break_word(mid, start, w0, width as nat));
        assert(take == min_nat((width - start.len()) as nat, w0.len()));
        assert(cur@ =~= start + w0.take(take as int));
        i = i + take;
        assert(rest.skip(take as int) =~= word@.skip(i as int));
        assert(break_word(mid, start, w0, width as nat) == (if cur@.len() >= width && word@.skip(i as int).len() > 0 {
            break_word(mid.push(cur@), seq![], word@.skip(i as int), width as nat)
        } else {
            break_word(mid, cur@, word@.skip(i as int), width as nat)
        }));
        if cur.len() >= width && i < n {
            let ghost before = out@.map_values(|l: Vec<char>| l@);
            let mut full: Vec<char> = Vec::new();
            std::mem::swap(&mut full, cur);
            let ghost fv = full@;
            out.push(full);
            assert(out@.map_values(|l: Vec<char>| l@) =~= before.push(fv));
            assert(cur@ =~= Seq::<char>::empty());
        }
    }
    assert(word@.skip(n as int) =~= Seq::<char>::empty());
}

/// Places one word (see `place_word`).
fn place(out: &mut Vec<Vec<char>>, cur: &mut Vec<char>, word: &[char], width: usize)
    requires
        width > 0,
    ensures
        (final(out)@.map_values(|l: Vec<char>| l@), final(cur)@) == place_word(
            (old(out)@.map_values(|l: Vec<char>| l@), old(cur)@),
            word@,
            width as nat,
        ),
{
    let ghost before = out@.map_values(|l: Vec<char>| l@);
    let ghost start = cur@;
    if cur.len() == 0 {
        if word.len() <= width {
            *cur = copy_of(word);
        } else {
            push_breaking(out, cur, word, width);
        }
    } else if cur.len() < width && word.len() <= width - 1 - cur.len() {
        cur.push(' ');
        let mut j: usize = 0;
        while j < word.len()
            invariant
                j <= word@.len(),
                cur@ == start.push(' ') + word@.take(j as int),
            decreases word@.len() - j,
        {
            cur.push(word[j]);
            j = j + 1;
            assert(cur@ =~= start.push(' ') + word@.take(j as int));
        }
        assert(word@.take(word@.len() as int) =~= word@);
    } else if word.len() <= width {
        let mut full = copy_of(word);
        std::mem::swap(&mut full, cur);
        out.push(full);
        assert(out@.map_values(|l: Vec<char>| l@) =~= before.push(start));
    } else {
        cur.push(' ');
        push_breaking(out, cur, word, width);
    }
}

/// The screen lines of one non-empty line of text.
fn wrap_one(raw: &[char], width: usize) -> (r: Vec<Vec<char>>)
    requires
        width > 0,
    ensures
        r@.map_values(|l: Vec<char>| l@) == wrap_line(raw@, width as nat),
{
    if raw.len() == 0 {
        let mut r: Vec<Vec<char>> = Vec::new();
        r.push(Vec::new());
        assert(r@.map_values(|l: Vec<char>| l@) =~= seq![Seq::<char>::empty()]);
        return r;
    }
    let ws = split_words(raw);
    let ghost wv = ws@.map_values(|w: Vec<char>| w@);
    let mut out: Vec<Vec<char>> = Vec::new();
    let mut cur: Vec<char> = Vec::new();
    let mut k: usize = 0;
    assert(wv.take(0) =~= Seq::<Seq<char>>::empty());
    assert(out@.map_values(|l: Vec<char>| l@) =~= Seq::<Seq<char>>::empty());
    while k < ws.len()
        invariant
            width > 0,
            k <= ws@.len(),
            wv == ws@.map_values(|w: Vec<char>| w@),
            wv == words(raw@),
            (out@.map_values(|l: Vec<char>| l@), cur@) == place_words((seq![], seq![]), wv.take(k as int), width as nat),
        decreases ws@.len() - k,
    {
        assert(wv.take(k + 1).drop_last() =~= wv.take(k as int));
        assert(wv.take(k + 1).last() == ws[k as int]@);
        place(&mut out, &mut cur, ws[k].as_slice(), width);
        k = k + 1;
    }
    assert(wv.take(ws@.len() as int) =~= wv);
    if cur.len() > 0 {
        let ghost before = out@.map_values(|l: Vec<char>| l@);
        let ghost cv = cur@;
        out.push(cur);
        assert(out@.map_values(|l: Vec<char>| l@) =~= before.push(cv));
    }
    out
}

/// Wraps a text to a terminal width: each of its lines is broken into
/// screen lines by placing its words greedily, breaking words longer than
/// the width; a width of zero leaves the text whole.
pub fn wrap(text: &str, width: usize) -> (r: Vec<String>)
    ensures
        r@.map_values(|l: String| l@) == wrap_text(text@, width as nat),
{
    let mut r: Vec<String> = Vec::new();
    if width == 0 {
        let chars = chars_of(text);
        r.push(string_from_chars(chars.as_slice()));
        assert(r@.map_values(|l: String| l@) =~= seq![text@]);
        return r;
    }
    let ls = lines_of(text);
    let ghost lv = ls@.map_values(|l: Vec<char>| l@);
    let mut k: usize = 0;
    assert(lv.take(0) =~= Seq::<Seq<char>>::empty());
    assert(r@.map_values(|l: String| l@) =~= Seq::<Seq<char>>::empty());
    while k < ls.len()
        invariant
            width > 0,
            k <= ls@.len(),
            lv == ls@.map_values(|l: Vec<char>| l@),
            lv == text_lines(text@),
            r@.map_values(|l: String| l@) == wrap_lines(lv.take(k as int), width as nat),
        decreases ls@.len() - k,
    {
        let piece = wrap_one(ls[k].as_slice(), width);
        let ghost before = r@.map_values(|l: String| l@);
        let ghost pv = piece@.map_values(|l: Vec<char>| l@);
        let mut j: usize = 0;
        while j < piece.len()
            invariant
                j <= piece@.len(),
                pv == piece@.map_values(|l: Vec<char>| l@),
                r@.map_values(|l: String| l@) == before + pv.take(j as int),
            decreases piece@.len() - j,
        {
            let ghost prev = r@.map_values(|l: String| l@);
            let line = string_from_chars(piece[j].as_slice());
            assert(line@ == pv[j as int]);
            r.push(line);
            assert(r@.map_values(|l: String| l@) =~= prev.push(pv[j as int]));
            assert(pv.take(j + 1) =~= pv.take(j as int).push(pv[j as int]));
            j = j + 1;
            assert(r@.map_values(|l: String| l@) =~= before + pv.take(j as int));
        }
        assert(pv.take(pv.len() as int) =~= pv);
        assert(lv.take(k + 1).drop_last() =~= lv.take(k as int));
        assert(lv.take(k + 1).last() == ls[k as int]@);
        k = k + 1;
    }
    assert(lv.take(ls@.len() as int) =~= lv);
    r
}


/// A text without its whitespace (the space included).
pub open spec fn visible(s: Seq<char>) -> Seq<char>
    decreases s.len(),
{
    if s.len() == 0 {
        s
    } else {
        visible(s.drop_last()) + if is_white_space(s.last()) || s.last() == ' ' {
            seq![]
        } else {
            seq![s.last()]
        }
    }
}

proof fn visible_concat(a: Seq<char>, b: Seq<char>)
    ensures
        visible(a + b) == visible(a) + visible(b),
    decreases b.len(),
{
    if b.len() == 0 {
        assert(a + b =~= a);
        assert(visible(a) + visible(b) =~= visible(a));
    } else {
        visible_concat(a, b.drop_last());
        assert((a + b).drop_last() =~= a + b.drop_last());
        assert((a + b).last() == b.last());
        let tail = if is_white_space(b.last()) || b.last() == ' ' {
            Seq::<char>::empty()
        } else {
            seq![b.last()]
        };
        assert(visible(a) + visible(b.drop_last()) + tail =~= visible(a) + (visible(b.drop_last()) + tail));
    }
}

proof fn visible_one(c: char)
    ensures
        visible(seq![c]) == if is_white_space(c) || c == ' ' {
            Seq::<char>::empty()
        } else {
            seq![c]
        },
{
    assert(seq![c].drop_last() =~= Seq::<char>::empty());
    assert(visible(seq![c].drop_last()) =~= Seq::<char>::empty());
    assert(seq![c].last() == c);
    assert(Seq::<char>::empty() + seq![c] =~= seq![c]);
    assert(Seq::<char>::empty() + Seq::<char>::empty() =~= Seq::<char>::empty());
}

proof fn words_keep_text(s: Seq<char>, cur: Seq<char>)
    ensures
        visible(words_from(s, cur).flatten()) == visible(cur) + visible(s),
    decreases s.len(),
{
    let pre: Seq<Seq<char>> = if cur.len() > 0 {
        seq![cur]
    } else {
        seq![]
    };
    assert(pre.flatten() == cur) by {
        if cur.len() > 0 {
            pre.lemma_flatten_singleton();
        } else {
            assert(cur =~= Seq::<char>::empty());
        }
    }
    if s.len() == 0 {
        assert(visible(cur) + visible(s) =~= visible(cur));
    } else {
        let c = s[0];
        let tail = s.drop_first();
        assert(s =~= seq![c] + tail);
        visible_concat(seq![c], tail);
        visible_one(c);
        if is_white_space(c) {
            words_keep_text(tail, seq![]);
            lemma_flatten_concat(pre, words_from(tail, seq![]));
            visible_concat(pre.flatten(), words_from(tail, seq![]).flatten());
            assert(visible(Seq::<char>::empty()) =~= Seq::<char>::empty());
            assert(Seq::<char>::empty() + visible(tail) =~= visible(tail));
        } else {
            words_keep_text(tail, cur.push(c));
            assert(cur.push(c) =~= cur + seq![c]);
            visible_concat(cur, seq![c]);
            assert(visible(cur) + seq![c] + visible(tail) =~= visible(cur) + (seq![c] + visible(tail)));
        }
    }
}

proof fn break_word_keeps_text(out: Seq<Seq<char>>, cur: Seq<char>, w: Seq<char>, width: nat)
    requires
        width > 0,
    ensures
        break_word(out, cur, w, width).0.flatten() + break_word(out, cur, w, width).1 == out.flatten() + cur + w,
    decreases w.len(), cur.len(),
{
    if w.len() == 0 {
        assert(out.flatten() + cur + w =~= out.flatten() + cur);
    } else if cur.len() >= width {
        break_word_keeps_text(out.push(cur), seq![], w, width);
        out.lemma_flatten_push(cur);
        assert(out.push(cur).flatten() + Seq::<char>::empty() + w =~= out.flatten() + cur + w);
    } else {
        let take = min_nat((width - cur.len()) as nat, w.len());
        let filled = cur + w.take(take as int);
        let rest = w.skip(take as int);
        assert(w.take(take as int) + rest =~= w);
        if filled.len() >= width && rest.len() > 0 {
            break_word_keeps_text(out.push(filled), seq![], rest, width);
            out.lemma_flatten_push(filled);
            assert(out.push(filled).flatten() + Seq::<char>::empty() + rest =~= out.flatten() + cur + w);
        } else {
            break_word_keeps_text(out, filled, rest, width);
            assert(out.flatten() + filled + rest =~= out.flatten() + cur + w);
        }
    }
}


proof fn place_word_keeps_text(st: (Seq<Seq<char>>, Seq<char>), w: Seq<char>, width: nat)
    requires
        width > 0,
    ensures
        visible(place_word(st, w, width).0.flatten() + place_word(st, w, width).1) == visible(st.0.flatten() + st.1)
            + visible(w),
{
    let out = st.0;
    let cur = st.1;
    let head = out.flatten() + cur;
    visible_concat(head, w);
    visible_one(' ');
    if cur.len() == 0 {
        if w.len() <= width {
            assert(head =~= out.flatten());
            assert(out.flatten() + w =~= head + w);
        } else {
            break_word_keeps_text(out, cur, w, width);
        }
    } else if cur.len() + 1 + w.len() <= width {
        assert(out.flatten() + (cur.push(' ') + w) =~= head + seq![' '] + w);
        visible_concat(head, seq![' ']);
        visible_concat(head + seq![' '], w);
        assert(visible(head) + Seq::<char>::empty() =~= visible(head));
    } else if w.len() <= width {
        out.lemma_flatten_push(cur);
        assert(out.push(cur).flatten() + w =~= head + w);
    } else {
        break_word_keeps_text(out, cur.push(' '), w, width);
        assert(out.flatten() + cur.push(' ') + w =~= head + seq![' '] + w);
        visible_concat(head, seq![' ']);
        visible_concat(head + seq![' '], w);
        assert(visible(head) + Seq::<char>::empty() =~= visible(head));
    }
}

proof fn place_words_keep_text(st: (Seq<Seq<char>>, Seq<char>), ws: Seq<Seq<char>>, width: nat)
    requires
        width > 0,
    ensures
        visible(place_words(st, ws, width).0.flatten() + place_words(st, ws, width).1) == visible(st.0.flatten()
            + st.1) + visible(ws.flatten()),
    decreases ws.len(),
{
    if ws.len() == 0 {
        assert(visible(ws.flatten()) =~= Seq::<char>::empty());
        assert(visible(st.0.flatten() + st.1) + Seq::<char>::empty() =~= visible(st.0.flatten() + st.1));
    } else {
        let prev = place_words(st, ws.drop_last(), width);
        place_words_keep_text(st, ws.drop_last(), width);
        place_word_keeps_text(prev, ws.last(), width);
        ws.drop_last().lemma_flatten_push(ws.last());
        assert(ws.drop_last().push(ws.last()) =~= ws);
        visible_concat(ws.drop_last().flatten(), ws.last());
        let v0 = visible(st.0.flatten() + st.1);
        assert(v0 + visible(ws.drop_last().flatten()) + visible(ws.last()) =~= v0 + (visible(
            ws.drop_last().flatten(),
        ) + visible(ws.last())));
    }
}

proof fn wrap_line_keeps_text(raw: Seq<char>, width: nat)
    requires
        width > 0,
    ensures
        visible(wrap_line(raw, width).flatten()) == visible(raw),
{
    if raw.len() == 0 {
        let one: Seq<Seq<char>> = seq![seq![]];
        one.lemma_flatten_singleton();
        assert(one.flatten() =~= raw);
    } else {
        let empty_out: Seq<Seq<char>> = seq![];
        let st = place_words((empty_out, seq![]), words(raw), width);
        place_words_keep_text((empty_out, seq![]), words(raw), width);
        words_keep_text(raw, seq![]);
        assert(empty_out.flatten() + Seq::<char>::empty() =~= Seq::<char>::empty());
        assert(visible(Seq::<char>::empty()) =~= Seq::<char>::empty());
        assert(Seq::<char>::empty() + visible(raw) =~= visible(raw));
        if st.1.len() > 0 {
            st.0.lemma_flatten_push(st.1);
        } else {
            assert(st.0.flatten() + st.1 =~= st.0.flatten());
        }
    }
}

proof fn wrap_lines_keep_text(ls: Seq<Seq<char>>, width: nat)
    requires
        width > 0,
    ensures
        visible(wrap_lines(ls, width).flatten()) == visible(ls.flatten()),
    decreases ls.len(),
{
    if ls.len() == 0 {
    } else {
        wrap_lines_keep_text(ls.drop_last(), width);
        wrap_line_keeps_text(ls.last(), width);
        lemma_flatten_concat(wrap_lines(ls.drop_last(), width), wrap_line(ls.last(), width));
        visible_concat(wrap_lines(ls.drop_last(), width).flatten(), wrap_line(ls.last(), width).flatten());
        ls.drop_last().lemma_flatten_push(ls.last());
        assert(ls.drop_last().push(ls.last()) =~= ls);
        visible_concat(ls.drop_last().flatten(), ls.last());
    }
}

/// Wrapping a text to a positive width keeps, in order, every character of
/// its lines that is not whitespace: only spaces and line breaks change.
pub proof fn wrapping_keeps_text(s: Seq<char>, width: nat)
    requires
        width > 0,
    ensures
        visible(wrap_text(s, width).flatten()) == visible(text_lines(s).flatten()),
{
    wrap_lines_keep_text(text_lines(s), width);
}

} // verus!

use vstd::prelude::*;

verus! {

/// The Unicode `White_Space` property, which `char::is_whitespace` and
/// `str::trim` go by.
pub open spec fn is_white_space(c: char) -> bool {
    let v = c as u32;
    ||| 0x09 <= v <= 0x0d
    ||| v == 0x20
    ||| v == 0x85
    ||| v == 0xa0
    ||| v == 0x1680
    ||| 0x2000 <= v <= 0x200a
    ||| v == 0x2028
    ||| v == 0x2029
    ||| v == 0x202f
    ||| v == 0x205f
    ||| v == 0x3000
}

/// Whether `c` is white space in the sense of `char::is_whitespace`.
pub fn white_space(c: char) -> (r: bool)
    ensures
        r == is_white_space(c),
{
    let v = c as u32;
    (0x09 <= v && v <= 0x0d) || v == 0x20 || v == 0x85 || v == 0xa0 || v == 0x1680 || (0x2000
        <= v && v <= 0x200a) || v == 0x2028 || v == 0x2029 || v == 0x202f || v == 0x205f || v
        == 0x3000
}

} // verus!

verus! {

/// The bracket characters, ASCII and full width, that the recogniser puts
/// around non-speech annotations.
pub open spec fn is_bracket(c: char) -> bool {
    c == '(' || c == ')' || c == '（' || c == '）'
}

/// `s` with every bracket character removed.
pub open spec fn without_brackets(s: Seq<char>) -> Seq<char>
    decreases s.len(),
{
    if s.len() == 0 {
        s
    } else if is_bracket(s.last()) {
        without_brackets(s.drop_last())
    } else {
        without_brackets(s.drop_last()).push(s.last())
    }
}

/// The pieces of `s` between its `'\n'` characters, in order; a text
/// without `'\n'` is a single piece.
pub open spec fn split_lines(s: Seq<char>) -> Seq<Seq<char>>
    decreases s.len(),
{
    if s.len() == 0 {
        seq![Seq::<char>::empty()]
    } else {
        let front = split_lines(s.drop_last());
        if s.last() == '\n' {
            front.push(Seq::<char>::empty())
        } else {
            front.update(front.len() - 1, front.last().push(s.last()))
        }
    }
}

/// `s` without its leading white space.
pub open spec fn trim_start(s: Seq<char>) -> Seq<char>
    decreases s.len(),
{
    if s.len() > 0 && is_white_space(s[0]) {
        trim_start(s.drop_first())
    } else {
        s
    }
}

/// `s` without its trailing white space.
pub open spec fn trim_end(s: Seq<char>) -> Seq<char>
    decreases s.len(),
{
    if s.len() > 0 && is_white_space(s.last()) {
        trim_end(s.drop_last())
    } else {
        s
    }
}

/// `s` without leading and trailing white space, as `str::trim` gives it.
pub open spec fn trim(s: Seq<char>) -> Seq<char> {
    trim_end(trim_start(s))
}

/// The concatenation of the pieces, in order.
pub open spec fn concat_all(pieces: Seq<Seq<char>>) -> Seq<char>
    decreases pieces.len(),
{
    if pieces.len() == 0 {
        Seq::<char>::empty()
    } else {
        concat_all(pieces.drop_last()) + pieces.last()
    }
}

/// The recogniser's transcript cleaned up: brackets removed, every line
/// trimmed, and the trimmed lines joined with nothing between them (an
/// empty line contributes nothing). A `"\r\n"` line end is covered, as
/// `'\r'` is white space and is trimmed away.
pub open spec fn cleaned(s: Seq<char>) -> Seq<char> {
    concat_all(split_lines(without_brackets(s)).map_values(|l: Seq<char>| trim(l)))
}

pub open spec fn all_white_space(s: Seq<char>) -> bool {
    forall|i: int| 0 <= i < s.len() ==> is_white_space(#[trigger] s[i])
}

proof fn lemma_split_lines_len(s: Seq<char>)
    ensures
        split_lines(s).len() >= 1,
    decreases s.len(),
{
    if s.len() > 0 {
        lemma_split_lines_len(s.drop_last());
    }
}

proof fn lemma_trim_start_push(s: Seq<char>, c: char)
    ensures
        trim_start(s.push(c)) == (if trim_start(s).len() == 0 {
            if is_white_space(c) {
                Seq::<char>::empty()
            } else {
                seq![c]
            }
        } else {
            trim_start(s).push(c)
        }),
    decreases s.len(),
{
    if s.len() == 0 {
        assert(s.push(c) =~= seq![c]);
        assert(seq![c].drop_first() =~= Seq::<char>::empty());
        assert(trim_start(Seq::<char>::empty()) == Seq::<char>::empty());
        assert(seq![c][0] == c);
    } else {
        assert(s.push(c)[0] == s[0]);
        if is_white_space(s[0]) {
            assert(s.push(c).drop_first() =~= s.drop_first().push(c));
            lemma_trim_start_push(s.drop_first(), c);
        }
    }
}

proof fn lemma_trim_end_white_tail(x: Seq<char>, p: Seq<char>)
    requires
        x.len() > 0,
        !is_white_space(x.last()),
        all_white_space(p),
    ensures
        trim_end(x + p) == x,
    decreases p.len(),
{
    if p.len() == 0 {
        assert(x + p =~= x);
    } else {
        assert((x + p).drop_last() =~= x + p.drop_last());
        assert(is_white_space(p[p.len() - 1]));
        lemma_trim_end_white_tail(x, p.drop_last());
    }
}

/// What the scan of `clean_output` knows after reading the prefix `p`:
/// `out` holds the finished lines and the current line trimmed at its
/// start up to its last non-white character; `pending` holds the white
/// space read after that character.
spec fn scan_state(
    p: Seq<char>,
    out: Seq<char>,
    pending: Seq<char>,
    started: bool,
    head: Seq<char>,
) -> bool {
    let lines = split_lines(without_brackets(p));
    let cur = lines.last();
    let done = concat_all(lines.drop_last().map_values(|l: Seq<char>| trim(l)));
    if started {
        &&& head.len() > 0
        &&& !is_white_space(head.last())
        &&& all_white_space(pending)
        &&& trim_start(cur) == head + pending
        &&& out == done + head
    } else {
        &&& trim_start(cur).len() == 0
        &&& out == done
        &&& pending.len() == 0
    }
}

proof fn lemma_scan_finish(
    p: Seq<char>,
    out: Seq<char>,
    pending: Seq<char>,
    started: bool,
    head: Seq<char>,
)
    requires
        scan_state(p, out, pending, started, head),
    ensures
        out == cleaned(p),
{
    let lines = split_lines(without_brackets(p));
    lemma_split_lines_len(without_brackets(p));
    let trimmed = lines.map_values(|l: Seq<char>| trim(l));
    assert(trimmed.drop_last() =~= lines.drop_last().map_values(|l: Seq<char>| trim(l)));
    if started {
        lemma_trim_end_white_tail(head, pending);
    }
}

/// Appends `c` to `s` with `String::push`, which appends the given
/// character to the end of the string.
#[verifier::external_body]
fn push_char(s: &mut String, c: char)
    ensures
        final(s)@ == old(s)@.push(c),
{
    s.push(c);
}

/// Cleans a transcript: removes the brackets `(`, `)`, `（`, `）`, trims
/// every line and joins the non-empty lines without a separator.
pub fn clean_output(text: &str) -> (r: String)
    ensures
        r@ == cleaned(text@),
{
    let mut out = String::new();
    let mut pending = String::new();
    let mut started = false;
    let ghost mut head: Seq<char> = Seq::empty();
    let ghost mut i: int = 0;
    proof {
        assert(text@.take(0) =~= Seq::<char>::empty());
        assert(split_lines(without_brackets(text@.take(0))).drop_last() =~= Seq::<Seq<char>>::empty());
    }
    broadcast use vstd::string::group_string_axioms;
    for c in it: text.chars()
        invariant
            it.seq() == text@,
            i == it.index(),
            scan_state(text@.take(i), out@, pending@, started, head),
    {
        assert(c == text@[i]);
        let ghost p = text@.take(i);
        let ghost p2 = text@.take(i + 1);
        let ghost lines = split_lines(without_brackets(p));
        let ghost q = without_brackets(p);
        proof {
            assert(p2 =~= p.push(c));
            assert(p2.drop_last() =~= p);
            assert(p2.last() == c);
            lemma_split_lines_len(q);
            assert(q.push(c).drop_last() =~= q);
            assert(q.push(c).last() == c);
        }
        if c == '(' || c == ')' || c == '（' || c == '）' {
            assert(without_brackets(p2) == q);
            assert(scan_state(p2, out@, pending@, started, head));
        } else if c == '\n' {
            proof {
                let trimmed = lines.map_values(|l: Seq<char>| trim(l));
                assert(trimmed.drop_last() =~= lines.drop_last().map_values(|l: Seq<char>| trim(l)));
                if started {
                    lemma_trim_end_white_tail(head, pending@);
                }
                let lines2 = split_lines(without_brackets(p2));
                assert(without_brackets(p2) == q.push(c));
                assert(lines2 == lines.push(Seq::<char>::empty()));
                assert(lines2.drop_last() =~= lines);
                assert(trim_start(lines2.last()) =~= Seq::<char>::empty());
            }
            pending = String::new();
            started = false;
            proof {
                head = Seq::empty();
                assert(scan_state(p2, out@, pending@, started, head));
            }
        } else if white_space(c) {
            proof {
                let lines2 = split_lines(without_brackets(p2));
                assert(without_brackets(p2) == q.push(c));
                assert(lines2 == lines.update(lines.len() - 1, lines.last().push(c)));
                assert(lines2.drop_last() =~= lines.drop_last());
                assert(lines2.last() == lines.last().push(c));
                lemma_trim_start_push(lines.last(), c);
            }
            if started {
                let ghost old_pending = pending@;
                push_char(&mut pending, c);
                proof {
                    assert((head + old_pending).push(c) =~= head + pending@);
                    assert(all_white_space(pending@));
                }
            }
            assert(scan_state(p2, out@, pending@, started, head));
        } else {
            proof {
                let lines2 = split_lines(without_brackets(p2));
                assert(without_brackets(p2) == q.push(c));
                assert(lines2 == lines.update(lines.len() - 1, lines.last().push(c)));
                assert(lines2.drop_last() =~= lines.drop_last());
                assert(lines2.last() == lines.last().push(c));
                lemma_trim_start_push(lines.last(), c);
            }
            let ghost old_out = out@;
            let ghost old_pending = pending@;
            if started {
                out.append(pending.as_str());
                pending = String::new();
            }
            push_char(&mut out, c);
            proof {
                let done = concat_all(lines.drop_last().map_values(|l: Seq<char>| trim(l)));
                if started {
                    assert(out@ =~= done + (head + old_pending).push(c));
                    head = (head + old_pending).push(c);
                } else {
                    assert(out@ =~= done + seq![c]);
                    head = seq![c];
                }
            }
            started = true;
            assert(scan_state(p2, out@, pending@, started, head));
        }
        proof {
            i = i + 1;
        }
    }
    proof {
        assert(text@.take(i) =~= text@);
        lemma_scan_finish(text@, out@, pending@, started, head);
    }
    out
}

} // verus!

verus! {

/// The character of the decimal digit `d`.
pub open spec fn digit_char(d: nat) -> char {
    (48 + d) as char
}

/// The decimal notation of `n`, without sign or leading zeros, as
/// `usize`'s `Display` writes it.
pub open spec fn decimal(n: nat) -> Seq<char>
    decreases n,
{
    if n < 10 {
        seq![digit_char(n)]
    } else {
        decimal(n / 10).push(digit_char(n % 10))
    }
}

fn digit(d: usize) -> (c: char)
    requires
        d < 10,
    ensures
        c == digit_char(d as nat),
{
    let b: u8 = 48u8 + (d as u8);
    b as char
}

/// The number that the decimal digits `s` stand for.
pub open spec fn digits_value(s: Seq<char>) -> int
    decreases s.len(),
{
    if s.len() == 0 {
        0
    } else {
        digits_value(s.drop_last()) * 10 + (s.last() as int - 48)
    }
}

/// The decimal notation of `n` is made of the digits `'0'` to `'9'`,
/// begins with `'0'` only when `n` is 0, and stands for `n`.
pub proof fn law_decimal_stands_for_its_number(n: nat)
    ensures
        decimal(n).len() >= 1,
        forall|i: int| 0 <= i < decimal(n).len() ==> '0' <= #[trigger] decimal(n)[i] <= '9',
        decimal(n)[0] == '0' ==> n == 0,
        digits_value(decimal(n)) == n,
    decreases n,
{
    if n >= 10 {
        law_decimal_stands_for_its_number(n / 10);
        let d = decimal(n / 10);
        let e = d.push(digit_char(n % 10));
        assert(e.drop_last() =~= d);
        assert(e[0] == d[0]);
        assert(digit_char(n % 10) as int == 48 + n % 10);
        assert(digits_value(e) == digits_value(d) * 10 + (n % 10));
        assert(decimal(n) == e);
        assert((n / 10) as int * 10 + n % 10 == n);
        assert forall|i: int| 0 <= i < e.len() implies '0' <= #[trigger] e[i] <= '9' by {
            if i < d.len() {
                assert(e[i] == d[i]);
            }
        }
    } else {
        assert(seq![digit_char(n)].drop_last() =~= Seq::<char>::empty());
        let e = seq![digit_char(n)];
        assert(digit_char(n) as int == 48 + n);
        assert(e.last() == digit_char(n));
        assert(digits_value(e.drop_last()) == 0);
        assert(digits_value(e) == n);
    }
}

/// Writes `n` in decimal.
pub fn decimal_string(n: usize) -> (r: String)
    ensures
        r@ == decimal(n as nat),
    decreases n,
{
    if n < 10 {
        let mut s = String::new();
        push_char(&mut s, digit(n));
        s
    } else {
        let mut s = decimal_string(n / 10);
        push_char(&mut s, digit(n % 10));
        s
    }
}

} // verus!

verus! {

/// No bracket and no line break in `s`.
pub open spec fn free_of_brackets_and_breaks(s: Seq<char>) -> bool {
    forall|i: int| 0 <= i < s.len() ==> !is_bracket(#[trigger] s[i]) && s[i] != '\n'
}

/// `s` is empty or begins and ends with a character that is not white space.
pub open spec fn trimmed_form(s: Seq<char>) -> bool {
    s.len() == 0 || (!is_white_space(s[0]) && !is_white_space(s.last()))
}

proof fn lemma_without_brackets_free(s: Seq<char>)
    ensures
        forall|i: int|
            0 <= i < without_brackets(s).len() ==> !is_bracket(#[trigger] without_brackets(s)[i]),
    decreases s.len(),
{
    if s.len() > 0 {
        lemma_without_brackets_free(s.drop_last());
        let prev = without_brackets(s.drop_last());
        if !is_bracket(s.last()) {
            let w = prev.push(s.last());
            assert forall|i: int| 0 <= i < w.len() implies !is_bracket(#[trigger] w[i]) by {
                if i < prev.len() {
                    assert(w[i] == prev[i]);
                }
            }
        }
    }
}

proof fn lemma_split_lines_free(x: Seq<char>)
    requires
        forall|i: int| 0 <= i < x.len() ==> !is_bracket(#[trigger] x[i]),
    ensures
        forall|j: int|
            0 <= j < split_lines(x).len() ==> free_of_brackets_and_breaks(
                #[trigger] split_lines(x)[j],
            ),
    decreases x.len(),
{
    if x.len() > 0 {
        let y = x.drop_last();
        assert forall|i: int| 0 <= i < y.len() implies !is_bracket(#[trigger] y[i]) by {
            assert(y[i] == x[i]);
        }
        lemma_split_lines_free(y);
        lemma_split_lines_len(y);
        let front = split_lines(y);
        if x.last() != '\n' {
            let c = x.last();
            assert(!is_bracket(x[x.len() - 1]));
            let l = front.last().push(c);
            assert(free_of_brackets_and_breaks(front[front.len() - 1]));
            assert forall|i: int| 0 <= i < l.len() implies !is_bracket(#[trigger] l[i]) && l[i]
                != '\n' by {
                if i < l.len() - 1 {
                    assert(l[i] == front.last()[i]);
                }
            }
            assert(free_of_brackets_and_breaks(l));
        }
    }
}

proof fn lemma_trim_start_suffix(s: Seq<char>)
    ensures
        trim_start(s).len() <= s.len(),
        trim_start(s) == s.skip(s.len() - trim_start(s).len()),
        trim_start(s).len() == 0 || !is_white_space(trim_start(s)[0]),
    decreases s.len(),
{
    if s.len() > 0 && is_white_space(s[0]) {
        lemma_trim_start_suffix(s.drop_first());
        let t = trim_start(s.drop_first());
        assert(s.drop_first().skip(s.drop_first().len() - t.len()) =~= s.skip(s.len() - t.len()));
    } else {
        assert(s.skip(0) =~= s);
    }
}

proof fn lemma_trim_end_prefix(s: Seq<char>)
    ensures
        trim_end(s).len() <= s.len(),
        trim_end(s) == s.take(trim_end(s).len() as int),
        trim_end(s).len() == 0 || !is_white_space(trim_end(s).last()),
    decreases s.len(),
{
    if s.len() > 0 && is_white_space(s.last()) {
        lemma_trim_end_prefix(s.drop_last());
        let t = trim_end(s.drop_last());
        assert(s.drop_last().take(t.len() as int) =~= s.take(t.len() as int));
    } else {
        assert(s.take(s.len() as int) =~= s);
    }
}

proof fn lemma_trim_clean(s: Seq<char>)
    requires
        free_of_brackets_and_breaks(s),
    ensures
        free_of_brackets_and_breaks(trim(s)),
        trimmed_form(trim(s)),
{
    lemma_trim_start_suffix(s);
    let a = trim_start(s);
    lemma_trim_end_prefix(a);
    let b = trim_end(a);
    assert forall|i: int| 0 <= i < b.len() implies !is_bracket(#[trigger] b[i]) && b[i]
        != '\n' by {
        assert(b[i] == a[i]);
        assert(a[i] == s[s.len() - a.len() + i]);
    }
    if b.len() > 0 {
        assert(b[0] == a[0]);
    }
}

proof fn lemma_concat_clean(pieces: Seq<Seq<char>>)
    requires
        forall|j: int|
            0 <= j < pieces.len() ==> free_of_brackets_and_breaks(#[trigger] pieces[j])
                && trimmed_form(pieces[j]),
    ensures
        free_of_brackets_and_breaks(concat_all(pieces)),
        trimmed_form(concat_all(pieces)),
    decreases pieces.len(),
{
    if pieces.len() > 0 {
        let front = pieces.drop_last();
        assert forall|j: int| 0 <= j < front.len() implies free_of_brackets_and_breaks(
            #[trigger] front[j],
        ) && trimmed_form(front[j]) by {
            assert(front[j] == pieces[j]);
        }
        lemma_concat_clean(front);
        let a = concat_all(front);
        let b = pieces.last();
        assert(free_of_brackets_and_breaks(pieces[pieces.len() - 1]));
        assert(trimmed_form(pieces[pieces.len() - 1]));
        let ab = a + b;
        assert forall|i: int| 0 <= i < ab.len() implies !is_bracket(#[trigger] ab[i]) && ab[i]
            != '\n' by {
            if i < a.len() {
                assert(ab[i] == a[i]);
            } else {
                assert(ab[i] == b[i - a.len()]);
            }
        }
        if a.len() == 0 {
            assert(ab =~= b);
        } else if b.len() == 0 {
            assert(ab =~= a);
        } else {
            assert(ab[0] == a[0]);
            assert(ab.last() == b.last());
        }
    }
}

/// The cleaned transcript has no brackets and no line breaks, and does not
/// begin or end with white space.
pub proof fn law_cleaned_form(s: Seq<char>)
    ensures
        free_of_brackets_and_breaks(cleaned(s)),
        trimmed_form(cleaned(s)),
{
    let x = without_brackets(s);
    lemma_without_brackets_free(s);
    lemma_split_lines_free(x);
    let lines = split_lines(x);
    let pieces = lines.map_values(|l: Seq<char>| trim(l));
    assert forall|j: int| 0 <= j < pieces.len() implies free_of_brackets_and_breaks(
        #[trigger] pieces[j],
    ) && trimmed_form(pieces[j]) by {
        lemma_trim_clean(lines[j]);
    }
    lemma_concat_clean(pieces);
}

proof fn lemma_clean_text_fixed(r: Seq<char>)
    requires
        free_of_brackets_and_breaks(r),
    ensures
        without_brackets(r) == r,
        split_lines(r) == seq![r],
    decreases r.len(),
{
    if r.len() > 0 {
        let y = r.drop_last();
        assert(free_of_brackets_and_breaks(y)) by {
            assert forall|i: int| 0 <= i < y.len() implies !is_bracket(#[trigger] y[i]) && y[i]
                != '\n' by {
                assert(y[i] == r[i]);
            }
        }
        lemma_clean_text_fixed(y);
        assert(!is_bracket(r[r.len() - 1]) && r[r.len() - 1] != '\n');
        assert(y.push(r.last()) =~= r);
        assert(seq![y].update(0, y.push(r.last())) =~= seq![r]);
    } else {
        assert(r =~= Seq::<char>::empty());
    }
}

/// Cleaning a cleaned transcript changes nothing.
pub proof fn law_clean_output_idempotent(s: Seq<char>)
    ensures
        cleaned(cleaned(s)) == cleaned(s),
{
    let r = cleaned(s);
    law_cleaned_form(s);
    lemma_clean_text_fixed(r);
    // trim leaves r as it is
    if r.len() > 0 {
        assert(!is_white_space(r[0]));
        assert(!is_white_space(r.last()));
    }
    assert(trim_start(r) == r);
    assert(trim_end(r) == r);
    let pieces = seq![r].map_values(|l: Seq<char>| trim(l));
    assert(pieces =~= seq![r]);
    assert(pieces.drop_last() =~= Seq::<Seq<char>>::empty());
    assert(pieces.last() == r);
    assert(concat_all(pieces.drop_last()) == Seq::<char>::empty());
    assert(Seq::<char>::empty() + r =~= r);
    assert(concat_all(pieces) =~= r);
}

/// The characters of `s` that carry content, in order: those that are
/// neither brackets nor white space.
pub open spec fn visible(s: Seq<char>) -> Seq<char>
    decreases s.len(),
{
    if s.len() == 0 {
        s
    } else if is_bracket(s.last()) || is_white_space(s.last()) {
        visible(s.drop_last())
    } else {
        visible(s.drop_last()).push(s.last())
    }
}

proof fn lemma_visible_add(a: Seq<char>, b: Seq<char>)
    ensures
        visible(a + b) == visible(a) + visible(b),
    decreases b.len(),
{
    if b.len() == 0 {
        assert(a + b =~= a);
        assert(visible(a) + visible(b) =~= visible(a));
    } else {
        lemma_visible_add(a, b.drop_last());
        assert((a + b).drop_last() =~= a + b.drop_last());
        assert((a + b).last() == b.last());
        assert(visible(a) + visible(b.drop_last()).push(b.last()) =~= (visible(a) + visible(
            b.drop_last(),
        )).push(b.last()));
    }
}

proof fn lemma_visible_without_brackets(s: Seq<char>)
    ensures
        visible(without_brackets(s)) == visible(s),
    decreases s.len(),
{
    if s.len() > 0 {
        lemma_visible_without_brackets(s.drop_last());
        let w = without_brackets(s.drop_last());
        if !is_bracket(s.last()) {
            assert(w.push(s.last()).drop_last() =~= w);
            assert(w.push(s.last()).last() == s.last());
        }
    }
}

proof fn lemma_visible_trim_start(s: Seq<char>)
    ensures
        visible(trim_start(s)) == visible(s),
    decreases s.len(),
{
    if s.len() > 0 && is_white_space(s[0]) {
        lemma_visible_trim_start(s.drop_first());
        let head = seq![s[0]];
        assert(head + s.drop_first() =~= s);
        lemma_visible_add(head, s.drop_first());
        assert(head.drop_last() =~= Seq::<char>::empty());
        assert(head.last() == s[0]);
        assert(visible(head.drop_last()) == Seq::<char>::empty());
        assert(visible(head) == Seq::<char>::empty());
        assert(Seq::<char>::empty() + visible(s.drop_first()) =~= visible(s.drop_first()));
    }
}

proof fn lemma_visible_trim_end(s: Seq<char>)
    ensures
        visible(trim_end(s)) == visible(s),
    decreases s.len(),
{
    if s.len() > 0 && is_white_space(s.last()) {
        lemma_visible_trim_end(s.drop_last());
    }
}

proof fn lemma_visible_trimmed_lines(pieces: Seq<Seq<char>>)
    ensures
        visible(concat_all(pieces.map_values(|l: Seq<char>| trim(l)))) == visible(
            concat_all(pieces),
        ),
    decreases pieces.len(),
{
    let tp = pieces.map_values(|l: Seq<char>| trim(l));
    if pieces.len() > 0 {
        let front = pieces.drop_last();
        lemma_visible_trimmed_lines(front);
        assert(tp.drop_last() =~= front.map_values(|l: Seq<char>| trim(l)));
        assert(tp.last() == trim(pieces.last()));
        lemma_visible_add(concat_all(tp.drop_last()), tp.last());
        lemma_visible_add(concat_all(front), pieces.last());
        lemma_visible_trim_start(pieces.last());
        lemma_visible_trim_end(trim_start(pieces.last()));
    }
}

proof fn lemma_visible_joined_lines(x: Seq<char>)
    ensures
        visible(concat_all(split_lines(x))) == visible(x),
    decreases x.len(),
{
    if x.len() > 0 {
        let y = x.drop_last();
        let c = x.last();
        lemma_visible_joined_lines(y);
        lemma_split_lines_len(y);
        let front = split_lines(y);
        if c == '\n' {
            let p = front.push(Seq::<char>::empty());
            assert(split_lines(x) == p);
            assert(p.drop_last() =~= front);
            assert(concat_all(p) =~= concat_all(front));
            assert(is_white_space(c));
            assert(visible(x) == visible(y));
        } else {
            let p = front.update(front.len() - 1, front.last().push(c));
            assert(p.drop_last() =~= front.drop_last());
            assert(p.last() == front.last().push(c));
            assert(concat_all(front) == concat_all(front.drop_last()) + front.last());
            let j = concat_all(front);
            assert(concat_all(p) =~= j.push(c));
            assert(split_lines(x) == p);
            assert(j.push(c).drop_last() =~= j);
            assert(j.push(c).last() == c);
            assert(visible(j.push(c)) == (if is_bracket(c) || is_white_space(c) {
                visible(j)
            } else {
                visible(j).push(c)
            }));
            assert(visible(x) == (if is_bracket(c) || is_white_space(c) {
                visible(y)
            } else {
                visible(y).push(c)
            }));
        }
    } else {
        let p = seq![Seq::<char>::empty()];
        assert(p.drop_last() =~= Seq::<Seq<char>>::empty());
        assert(concat_all(p.drop_last()) == Seq::<char>::empty());
        assert(p.last() == Seq::<char>::empty());
        assert(Seq::<char>::empty() + Seq::<char>::empty() =~= Seq::<char>::empty());
        assert(concat_all(p) == Seq::<char>::empty());
    }
}

/// Cleaning keeps the content: the characters that are neither brackets
/// nor white space come out all, unchanged and in their order.
pub proof fn law_cleaning_keeps_content(s: Seq<char>)
    ensures
        visible(cleaned(s)) == visible(s),
{
    let x = without_brackets(s);
    lemma_visible_trimmed_lines(split_lines(x));
    lemma_visible_joined_lines(x);
    lemma_visible_without_brackets(s);
}

proof fn lemma_without_brackets_keeps_no_break(s: Seq<char>)
    requires
        forall|i: int| 0 <= i < s.len() ==> #[trigger] s[i] != '\n',
    ensures
        free_of_brackets_and_breaks(without_brackets(s)),
    decreases s.len(),
{
    lemma_without_brackets_free(s);
    if s.len() > 0 {
        let y = s.drop_last();
        assert forall|i: int| 0 <= i < y.len() implies #[trigger] y[i] != '\n' by {
            assert(y[i] == s[i]);
        }
        lemma_without_brackets_keeps_no_break(y);
        let w = without_brackets(y);
        if !is_bracket(s.last()) {
            let v = w.push(s.last());
            assert(s.last() == s[s.len() - 1]);
            assert forall|i: int| 0 <= i < v.len() implies !is_bracket(#[trigger] v[i]) && v[i]
                != '\n' by {
                if i < w.len() {
                    assert(v[i] == w[i]);
                }
            }
        }
    }
}

/// A transcript of one line is cleaned by removing its brackets and then
/// trimming white space from both ends; white space inside is kept.
pub proof fn law_one_line_is_unbracketed_and_trimmed(s: Seq<char>)
    requires
        forall|i: int| 0 <= i < s.len() ==> #[trigger] s[i] != '\n',
    ensures
        cleaned(s) == trim(without_brackets(s)),
{
    let x = without_brackets(s);
    lemma_without_brackets_keeps_no_break(s);
    lemma_clean_text_fixed(x);
    let pieces = seq![x].map_values(|l: Seq<char>| trim(l));
    assert(pieces =~= seq![trim(x)]);
    assert(pieces.drop_last() =~= Seq::<Seq<char>>::empty());
    assert(pieces.last() == trim(x));
    assert(concat_all(pieces.drop_last()) == Seq::<char>::empty());
    assert(Seq::<char>::empty() + trim(x) =~= trim(x));
}

proof fn lemma_without_brackets_add(a: Seq<char>, b: Seq<char>)
    ensures
        without_brackets(a + b) == without_brackets(a) + without_brackets(b),
    decreases b.len(),
{
    if b.len() == 0 {
        assert(a + b =~= a);
        assert(without_brackets(a) + without_brackets(b) =~= without_brackets(a));
    } else {
        lemma_without_brackets_add(a, b.drop_last());
        assert((a + b).drop_last() =~= a + b.drop_last());
        assert((a + b).last() == b.last());
        assert(without_brackets(a) + without_brackets(b.drop_last()).push(b.last()) =~= (
        without_brackets(a) + without_brackets(b.drop_last())).push(b.last()));
    }
}

proof fn lemma_split_lines_at_break(a: Seq<char>, b: Seq<char>)
    ensures
        split_lines(a.push('\n') + b) == split_lines(a) + split_lines(b),
    decreases b.len(),
{
    let x = a.push('\n') + b;
    if b.len() == 0 {
        assert(x =~= a.push('\n'));
        assert(x.drop_last() =~= a);
        assert(split_lines(a).push(Seq::<char>::empty()) =~= split_lines(a) + seq![
            Seq::<char>::empty(),
        ]);
    } else {
        let y = b.drop_last();
        let c = b.last();
        lemma_split_lines_at_break(a, y);
        lemma_split_lines_len(y);
        lemma_split_lines_len(a);
        assert(x.drop_last() =~= a.push('\n') + y);
        assert(x.last() == c);
        let sa = split_lines(a);
        let sy = split_lines(y);
        if c == '\n' {
            assert((sa + sy).push(Seq::<char>::empty()) =~= sa + sy.push(Seq::<char>::empty()));
        } else {
            let joined = sa + sy;
            assert(joined.last() == sy.last());
            assert(joined.update(joined.len() - 1, joined.last().push(c)) =~= sa + sy.update(
                sy.len() - 1,
                sy.last().push(c),
            ));
        }
    }
}

proof fn lemma_concat_all_add(p: Seq<Seq<char>>, q: Seq<Seq<char>>)
    ensures
        concat_all(p + q) == concat_all(p) + concat_all(q),
    decreases q.len(),
{
    if q.len() == 0 {
        assert(p + q =~= p);
        assert(concat_all(p) + concat_all(q) =~= concat_all(p));
    } else {
        lemma_concat_all_add(p, q.drop_last());
        assert((p + q).drop_last() =~= p + q.drop_last());
        assert((p + q).last() == q.last());
        assert(concat_all(p) + concat_all(q.drop_last()) + q.last() =~= concat_all(p) + (
        concat_all(q.drop_last()) + q.last()));
    }
}

/// Each line is cleaned on its own and the cleaned lines are joined with
/// nothing between them: cleaning text made of `a`, a line break and `b`
/// gives `a` cleaned followed by `b` cleaned.
pub proof fn law_lines_cleaned_apart_and_joined(a: Seq<char>, b: Seq<char>)
    ensures
        cleaned(a.push('\n') + b) == cleaned(a) + cleaned(b),
{
    let wa = without_brackets(a);
    let wb = without_brackets(b);
    lemma_without_brackets_add(a.push('\n'), b);
    lemma_without_brackets_add(a, seq!['\n']);
    assert(a.push('\n') =~= a + seq!['\n']);
    let nl = seq!['\n'];
    assert(nl.drop_last() =~= Seq::<char>::empty());
    assert(nl.last() == '\n');
    assert(without_brackets(nl.drop_last()) == Seq::<char>::empty());
    assert(Seq::<char>::empty().push('\n') =~= nl);
    assert(without_brackets(nl) == nl);
    assert(wa + seq!['\n'] =~= wa.push('\n'));
    lemma_split_lines_at_break(wa, wb);
    let sa = split_lines(wa);
    let sb = split_lines(wb);
    assert((sa + sb).map_values(|l: Seq<char>| trim(l)) =~= sa.map_values(|l: Seq<char>| trim(l))
        + sb.map_values(|l: Seq<char>| trim(l)));
    lemma_concat_all_add(
        sa.map_values(|l: Seq<char>| trim(l)),
        sb.map_values(|l: Seq<char>| trim(l)),
    );
}

} // verus!

use vstd::prelude::*;

verus! {

/// `k` blank characters.
pub open spec fn spaces(k: nat) -> Seq<char> {
    Seq::new(k, |i: int| ' ')
}

/// The decimal digit character for `d < 10`.
pub open spec fn digit_char(d: nat) -> char {
    if d == 0 { '0' }
    else if d == 1 { '1' }
    else if d == 2 { '2' }
    else if d == 3 { '3' }
    else if d == 4 { '4' }
    else if d == 5 { '5' }
    else if d == 6 { '6' }
    else if d == 7 { '7' }
    else if d == 8 { '8' }
    else { '9' }
}

/// The decimal representation of `n`, without leading zeros.
pub open spec fn decimal(n: nat) -> Seq<char>
    decreases n,
{
    if n < 10 {
        seq![digit_char(n)]
    } else {
        decimal(n / 10).push(digit_char(n % 10))
    }
}

/// `s` right-aligned in a field of `width` characters.
pub open spec fn right_aligned(s: Seq<char>, width: nat) -> Seq<char> {
    if s.len() < width {
        spaces((width - s.len()) as nat) + s
    } else {
        s
    }
}

/// What stands before the first line of a block: the ordinal right-aligned
/// in five columns and a colon, or four blanks for an unnumbered block.
pub open spec fn label(number: Option<nat>) -> Seq<char> {
    match number {
        Some(n) => right_aligned(decimal(n), 5) + seq![':', ' '],
        None => spaces(4),
    }
}

/// What stands before every further line of a block.
pub open spec fn pad(number: Option<nat>) -> Seq<char> {
    match number {
        Some(_) => spaces(7),
        None => spaces(4),
    }
}

/// `s` with every line break followed by `pad`.
pub open spec fn reindent(s: Seq<char>, pad: Seq<char>) -> Seq<char>
    decreases s.len(),
{
    if s.len() == 0 {
        Seq::empty()
    } else {
        reindent(s.drop_last(), pad) + if s.last() == '\n' {
            seq!['\n'] + pad
        } else {
            seq![s.last()]
        }
    }
}

/// The lines `lines` joined by `sep`.
pub open spec fn join(lines: Seq<Seq<char>>, sep: Seq<char>) -> Seq<char>
    decreases lines.len(),
{
    if lines.len() == 0 {
        Seq::empty()
    } else if lines.len() == 1 {
        lines[0]
    } else {
        join(lines.drop_last(), sep) + sep + lines.last()
    }
}

proof fn lemma_reindent_concat(a: Seq<char>, b: Seq<char>, pad: Seq<char>)
    ensures
        reindent(a + b, pad) == reindent(a, pad) + reindent(b, pad),
    decreases b.len(),
{
    if b.len() == 0 {
        assert(a + b =~= a);
        assert(reindent(a, pad) + reindent(b, pad) =~= reindent(a, pad));
    } else {
        assert((a + b).drop_last() =~= a + b.drop_last());
        lemma_reindent_concat(a, b.drop_last(), pad);
        assert(reindent(a + b, pad) =~= reindent(a, pad) + reindent(b, pad));
    }
}

proof fn lemma_reindent_single_line(s: Seq<char>, pad: Seq<char>)
    requires
        !s.contains('\n'),
    ensures
        reindent(s, pad) == s,
    decreases s.len(),
{
    if s.len() > 0 {
        assert(!s.drop_last().contains('\n')) by {
            if s.drop_last().contains('\n') {
                let j = choose|j: int| 0 <= j < s.drop_last().len() && s.drop_last()[j] == '\n';
                assert(s[j] == '\n');
            }
        }
        assert(s[s.len() - 1] != '\n');
        lemma_reindent_single_line(s.drop_last(), pad);
        assert(s.drop_last().push(s.last()) =~= s);
    }
}

proof fn lemma_reindent_lines(lines: Seq<Seq<char>>, p: Seq<char>)
    requires
        forall|i: int| 0 <= i < lines.len() ==> !(#[trigger] lines[i]).contains('\n'),
    ensures
        reindent(join(lines, seq!['\n']), p) == join(lines, seq!['\n'] + p),
    decreases lines.len(),
{
    let nl = seq!['\n'];
    if lines.len() == 0 {
        assert(reindent(Seq::<char>::empty(), p) == Seq::<char>::empty());
    } else if lines.len() == 1 {
        lemma_reindent_single_line(lines[0], p);
    } else {
        let init = lines.drop_last();
        let head = join(init, nl);
        assert(forall|i: int| 0 <= i < init.len() ==> init[i] == lines[i]);
        lemma_reindent_lines(init, p);
        lemma_reindent_concat(head + nl, lines.last(), p);
        lemma_reindent_concat(head, nl, p);
        assert(nl.drop_last() =~= Seq::<char>::empty());
        assert(reindent(nl.drop_last(), p) =~= Seq::<char>::empty());
        assert(reindent(nl, p) =~= nl + p);
        assert(lines[lines.len() - 1] == lines.last());
        lemma_reindent_single_line(lines.last(), p);
        assert(reindent(join(lines, nl), p) =~= join(lines, nl + p));
    }
}

/// A multi-line text rendered as a block keeps its lines whole and in order;
/// the first stands after the label, and every further line after the
/// padding that aligns it with the first.
pub proof fn lemma_block_lines(number: Option<nat>, lines: Seq<Seq<char>>)
    requires
        forall|i: int| 0 <= i < lines.len() ==> !(#[trigger] lines[i]).contains('\n'),
    ensures
        block(number, join(lines, seq!['\n'])) == label(number) + join(
            lines,
            seq!['\n'] + pad(number),
        ),
{
    lemma_reindent_lines(lines, pad(number));
}

/// Writing a text to a block in two fragments gives the same output as
/// writing it at once.
pub proof fn lemma_fragments_concat(number: Option<nat>, started: bool, a: Seq<char>, b: Seq<char>)
    ensures
        fragment(number, started, a) + fragment(number, true, b) == fragment(number, started, a + b),
{
    lemma_reindent_concat(a, b, pad(number));
    assert(fragment(number, started, a) + fragment(number, true, b) =~= fragment(number, started, a + b));
}

/// The label of an ordinal below 100000 and the padding of its further lines
/// have the same width, seven characters.
pub proof fn lemma_label_width(n: nat)
    requires
        n < 100000,
    ensures
        label(Some(n)).len() == 7,
        pad(Some(n)).len() == 7,
{
    lemma_decimal_len(n);
}

proof fn lemma_decimal_len(n: nat)
    ensures
        n < 10 ==> decimal(n).len() <= 1,
        n < 100 ==> decimal(n).len() <= 2,
        n < 1000 ==> decimal(n).len() <= 3,
        n < 10000 ==> decimal(n).len() <= 4,
        n < 100000 ==> decimal(n).len() <= 5,
        decimal(n).len() >= 1,
    decreases n,
{
    if n >= 10 {
        lemma_decimal_len(n / 10);
    }
}

fn digit_str(d: usize) -> (r: &'static str)
    requires
        d < 10,
    ensures
        r@ == seq![digit_char(d as nat)],
{
    proof {
        reveal_strlit("0");
        reveal_strlit("1");
        reveal_strlit("2");
        reveal_strlit("3");
        reveal_strlit("4");
        reveal_strlit("5");
        reveal_strlit("6");
        reveal_strlit("7");
        reveal_strlit("8");
        reveal_strlit("9");
    }
    if d == 0 { "0" }
    else if d == 1 { "1" }
    else if d == 2 { "2" }
    else if d == 3 { "3" }
    else if d == 4 { "4" }
    else if d == 5 { "5" }
    else if d == 6 { "6" }
    else if d == 7 { "7" }
    else if d == 8 { "8" }
    else { "9" }
}

/// Appends the decimal representation of `n` to `out`.
fn push_decimal(out: &mut String, n: usize)
    ensures
        final(out)@ == old(out)@ + decimal(n as nat),
    decreases n,
{
    if n >= 10 {
        push_decimal(out, n / 10);
    }
    out.append(digit_str(n % 10));
}

/// The ordinal of a block as a mathematical value.
pub open spec fn ordinal_of(number: Option<usize>) -> Option<nat> {
    match number {
        Some(n) => Some(n as nat),
        None => None,
    }
}

/// What writing the fragment `s` into a block adds to the output: the label
/// when nothing was written for the block yet, then `s` with its line breaks
/// re-indented.
pub open spec fn fragment(number: Option<nat>, started: bool, s: Seq<char>) -> Seq<char> {
    (if started {
        Seq::empty()
    } else {
        label(number)
    }) + reindent(s, pad(number))
}

/// The whole rendering of one cause's message as a block.
pub open spec fn block(number: Option<nat>, text: Seq<char>) -> Seq<char> {
    label(number) + reindent(text, pad(number))
}

fn write_spaces(out: &mut String, k: usize)
    ensures
        final(out)@ == old(out)@ + spaces(k as nat),
{
    let mut i: usize = 0;
    while i < k
        invariant
            i <= k,
            out@ == old(out)@ + spaces(i as nat),
        decreases k - i,
    {
        proof {
            reveal_strlit(" ");
        }
        out.append(" ");
        assert(spaces(i as nat) + " "@ =~= spaces((i + 1) as nat));
        i += 1;
    }
}

fn write_label(out: &mut String, number: Option<usize>)
    ensures
        final(out)@ == old(out)@ + label(ordinal_of(number)),
{
    match number {
        Some(n) => {
            let mut digits = String::new();
            push_decimal(&mut digits, n);
            let len = digits.as_str().unicode_len();
            if len < 5 {
                write_spaces(out, 5 - len);
            }
            out.append(digits.as_str());
            proof {
                reveal_strlit(": ");
            }
            out.append(": ");
            assert(out@ =~= old(out)@ + label(ordinal_of(number)));
        },
        None => write_spaces(out, 4),
    }
}

fn write_pad(out: &mut String, number: Option<usize>)
    ensures
        final(out)@ == old(out)@ + pad(ordinal_of(number)),
{
    if number.is_some() {
        write_spaces(out, 7);
    } else {
        write_spaces(out, 4);
    }
}

/// An output adapter that writes the message of one cause as an indented block.
pub struct Indented {
    pub number: Option<usize>,
    pub started: bool,
}

impl Indented {
    pub fn new(number: Option<usize>) -> (r: Indented)
        ensures
            r.number == number,
            !r.started,
    {
        Indented { number, started: false }
    }

    /// Writes the fragment `s` of the block's text to `out`.
    pub fn write_str(&mut self, out: &mut String, s: &str)
        ensures
            final(self).number == old(self).number,
            final(self).started,
            final(out)@ == old(out)@ + fragment(ordinal_of(old(self).number), old(self).started, s@),
    {
        if !self.started {
            self.started = true;
            write_label(out, self.number);
        }
        let ghost base = out@;
        let n = s.unicode_len();
        let mut line_start: usize = 0;
        let mut i: usize = 0;
        while i < n
            invariant
                n == s@.len(),
                line_start <= i <= n,
                out@ == base + reindent(s@.subrange(0, line_start as int), pad(ordinal_of(self.number))),
                reindent(s@.subrange(0, i as int), pad(ordinal_of(self.number)))
                    == reindent(s@.subrange(0, line_start as int), pad(ordinal_of(self.number)))
                        + s@.subrange(line_start as int, i as int),
            decreases n - i,
        {
            let c = s.get_char(i);
            let ghost p = pad(ordinal_of(self.number));
            assert(s@.subrange(0, i + 1).drop_last() =~= s@.subrange(0, i as int));
            if c == '\n' {
                out.append(s.substring_char(line_start, i));
                proof {
                    reveal_strlit("\n");
                }
                out.append("\n");
                write_pad(out, self.number);
                line_start = i + 1;
                assert(out@ =~= base + reindent(s@.subrange(0, line_start as int), p));
                assert(s@.subrange(line_start as int, line_start as int) =~= Seq::empty());
            } else {
                assert(s@.subrange(line_start as int, i + 1) =~= s@.subrange(line_start as int, i as int).push(c));
            }
            i += 1;
        }
        out.append(s.substring_char(line_start, n));
        assert(s@.subrange(0, n as int) =~= s@);
    }
}

} // verus!

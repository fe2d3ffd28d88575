use vstd::prelude::*;

use crate::error::{Chain, ErrorNode};
use crate::indent::{
    block, decimal, fragment, label, ordinal_of, pad, reindent, right_aligned, spaces, Indented,
};

verus! {

/// The line that opens the list of causes.
pub open spec fn caused_by() -> Seq<char> {
    "\n\nCaused by:"@
}

/// The ordinal of the cause at zero-based position `i`: causes are numbered
/// from one when there are several, and not at all otherwise.
pub open spec fn numbering(numbered: bool, i: nat) -> Option<nat> {
    if numbered {
        Some(i + 1)
    } else {
        None
    }
}

/// The causes, each on a line break of its own followed by its block.
pub open spec fn cause_blocks(causes: Seq<Seq<char>>, numbered: bool) -> Seq<char>
    decreases causes.len(),
{
    if causes.len() == 0 {
        Seq::empty()
    } else {
        cause_blocks(causes.drop_last(), numbered) + seq!['\n'] + block(
            numbering(numbered, (causes.len() - 1) as nat),
            causes.last(),
        )
    }
}

/// The report of an error whose causal chain has the messages `chain`,
/// the error's own message first: the headline, and when there are causes the
/// `Caused by:` section, numbered when there are two causes or more.
pub open spec fn report(chain: Seq<Seq<char>>) -> Seq<char> {
    if chain.len() <= 1 {
        if chain.len() == 0 {
            Seq::empty()
        } else {
            chain[0]
        }
    } else {
        chain[0] + caused_by() + cause_blocks(chain.drop_first(), chain.len() > 2)
    }
}

/// The texts `parts` one after another.
pub open spec fn concat_all(parts: Seq<Seq<char>>) -> Seq<char>
    decreases parts.len(),
{
    if parts.len() == 0 {
        Seq::empty()
    } else {
        concat_all(parts.drop_last()) + parts.last()
    }
}

/// The line of the `k`-th cause in a numbered list: a line break, `k`
/// right-aligned in five columns, a colon, and the message with every further
/// line indented by seven blanks.
pub open spec fn numbered_entry(k: nat, message: Seq<char>) -> Seq<char> {
    seq!['\n'] + right_aligned(decimal(k), 5) + seq![':', ' '] + reindent(message, spaces(7))
}

/// An error without a cause is reported as its message alone.
pub proof fn lemma_no_cause(e: ErrorNode)
    requires
        e.source is None,
    ensures
        report(e@) == e.message@,
{
    assert(e@ =~= seq![e.message@]);
}

/// An error whose cause has no cause of its own is reported as its message,
/// the `Caused by:` line, and the cause's message on a line of its own,
/// unnumbered and indented by four blanks.
pub proof fn lemma_single_cause(e: ErrorNode)
    requires
        e.source matches Some(c) && c.source is None,
    ensures
        report(e@) == e.message@ + caused_by() + seq!['\n'] + spaces(4) + reindent(
            e.source->0.message@,
            spaces(4),
        ),
{
    let c = *e.source->0;
    assert(c@ =~= seq![c.message@]);
    assert(e@ =~= seq![e.message@, c.message@]);
    let causes = e@.drop_first();
    assert(causes =~= seq![c.message@]);
    assert(causes.drop_last() =~= Seq::<Seq<char>>::empty());
    assert(cause_blocks(causes.drop_last(), false) =~= Seq::<char>::empty());
    assert(causes.last() == c.message@);
    assert(cause_blocks(causes, false) =~= seq!['\n'] + spaces(4) + reindent(c.message@, spaces(4)));
    assert(report(e@) =~= e.message@ + caused_by() + seq!['\n'] + spaces(4) + reindent(
        c.message@,
        spaces(4),
    ));
}

proof fn lemma_numbered_blocks(causes: Seq<Seq<char>>)
    ensures
        cause_blocks(causes, true) == concat_all(
            Seq::new(causes.len(), |i: int| numbered_entry((i + 1) as nat, causes[i])),
        ),
    decreases causes.len(),
{
    let entries = Seq::new(causes.len(), |i: int| numbered_entry((i + 1) as nat, causes[i]));
    if causes.len() > 0 {
        let init = causes.drop_last();
        lemma_numbered_blocks(init);
        assert(entries.drop_last() =~= Seq::new(
            init.len(),
            |i: int| numbered_entry((i + 1) as nat, init[i]),
        ));
        let k = (causes.len() - 1) as nat;
        assert(block(numbering(true, k), causes.last()) == label(Some(k + 1)) + reindent(
            causes.last(),
            pad(Some(k + 1)),
        ));
        assert(entries.last() == numbered_entry(k + 1, causes.last()));
        assert(cause_blocks(causes, true) =~= concat_all(entries));
    } else {
        assert(entries =~= Seq::<Seq<char>>::empty());
    }
}

/// An error with two causes or more in its chain is reported as its message,
/// the `Caused by:` line, and each cause in the order of the chain on a line
/// of its own, numbered from one.
pub proof fn lemma_numbered_causes(e: ErrorNode)
    requires
        e@.len() >= 3,
    ensures
        report(e@) == e.message@ + caused_by() + concat_all(
            Seq::new((e@.len() - 1) as nat, |i: int| numbered_entry((i + 1) as nat, e@[i + 1])),
        ),
{
    let causes = e@.drop_first();
    lemma_numbered_blocks(causes);
    assert(Seq::new(causes.len(), |i: int| numbered_entry((i + 1) as nat, causes[i])) =~= Seq::new(
        (e@.len() - 1) as nat,
        |i: int| numbered_entry((i + 1) as nat, e@[i + 1]),
    ));
}

/// The report depends on the messages along the chain alone: formatting an
/// error twice, or two errors whose chains carry the same messages, gives the
/// same text.
pub proof fn lemma_report_deterministic(a: ErrorNode, b: ErrorNode)
    requires
        a@ == b@,
    ensures
        report(a@) == report(b@),
{
}

/// Writes `error`'s message and the chain of its causes to `f`.
pub fn pretty_error_debug(error: &ErrorNode, f: &mut String)
    requires
        error@.len() <= usize::MAX,
    ensures
        final(f)@ == old(f)@ + report(error@),
{
    f.append(error.message());
    if let Some(cause) = error.source() {
        f.append("\n\nCaused by:");
        let multiple = cause.source().is_some();
        let ghost causes = error@.drop_first();
        let ghost base = f@;
        let mut chain = Chain::new(Some(cause));
        let mut n: usize = 0;
        assert(causes.subrange(0, 0) =~= Seq::<Seq<char>>::empty());
        loop
            invariant
                causes == error@.drop_first(),
                causes.len() < usize::MAX,
                multiple == (causes.len() > 1),
                n <= causes.len(),
                chain@ == causes.subrange(n as int, causes.len() as int),
                f@ == base + cause_blocks(causes.subrange(0, n as int), multiple),
            ensures
                f@ == base + cause_blocks(causes, multiple),
            decreases chain@.len(),
        {
            match chain.next() {
                Some(e) => {
                    f.append("\n");
                    let mut indented = Indented::new(if multiple { Some(n + 1) } else { None });
                    indented.write_str(f, e.message());
                    proof {
                        reveal_strlit("\n");
                        let done = causes.subrange(0, n + 1);
                        assert(done.drop_last() =~= causes.subrange(0, n as int));
                        assert(done.last() == e@[0]);
                        assert(fragment(ordinal_of(indented.number), false, e@[0]) == block(
                            numbering(multiple, n as nat),
                            done.last(),
                        ));
                        assert(f@ =~= base + cause_blocks(done, multiple));
                    }
                    n += 1;
                },
                None => {
                    assert(causes.subrange(0, n as int) =~= causes);
                    break ;
                },
            }
        }
    }
}

} // verus!

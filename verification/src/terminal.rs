//! The ANSI filter and the terminal buffer that a remote shell writes into.
use vstd::prelude::*;
use vstd::utf8::encode_utf8;
use crate::text::{
    char_string, char_width, cut_on_boundary, decode_lossy, last_bytes, lemma_encode_utf8_append,
    lemma_last_bytes_encoding,
    lemma_tail_is_skip, lemma_tail_within_props, lemma_utf8_len_is_width_sum, lemma_weight_skip, lemma_weight_skip_mono, string_from, to_chars,
    utf8_len, utf8_lossy, utf8_width, weight_sum,
};

verus! {

/// Most bytes of UTF-8 text that the terminal buffer keeps.
pub const OUTPUT_BYTE_LIMIT: usize = 10000;

/// The escape byte that starts a control sequence.
pub const ESC: u8 = 0x1b;

/// `m`, `h` and `l` end a control sequence; the filter drops them wherever they appear.
pub open spec fn is_sequence_end(b: u8) -> bool {
    b == 0x6d || b == 0x68 || b == 0x6c
}

/// Pending bytes are either none or an escape sequence in progress: they
/// start with ESC and hold none of the bytes that end a sequence.
pub open spec fn escape_pending(buf: Seq<u8>) -> bool {
    &&& buf.len() == 0 || buf[0] == ESC
    &&& forall|i: int| 0 <= i < buf.len() ==> !is_sequence_end(#[trigger] buf[i])
}

/// Pending bytes after the filter has seen `b`.
pub open spec fn step_buffer(buf: Seq<u8>, b: u8) -> Seq<u8> {
    if is_sequence_end(b) || (buf.len() == 0 && b != ESC) {
        seq![]
    } else {
        buf.push(b)
    }
}

/// The character the filter lets through when it sees `b`, if any: a byte
/// outside an escape sequence, read as the character of that code point.
pub open spec fn step_output(buf: Seq<u8>, b: u8) -> Option<char> {
    if !is_sequence_end(b) && buf.len() == 0 && b != ESC {
        Some(b as char)
    } else {
        None
    }
}

/// The text that `step_output` lets through, as a sequence.
pub open spec fn step_text(buf: Seq<u8>, b: u8) -> Seq<char> {
    match step_output(buf, b) {
        Some(c) => seq![c],
        None => seq![],
    }
}

/// Pending bytes after the filter has seen all of `data`, starting from `buf`.
pub open spec fn run_buffer(buf: Seq<u8>, data: Seq<u8>) -> Seq<u8>
    decreases data.len(),
{
    if data.len() == 0 {
        buf
    } else {
        step_buffer(run_buffer(buf, data.drop_last()), data.last())
    }
}

/// The text the filter lets through while it sees all of `data`, starting from `buf`.
pub open spec fn run_text(buf: Seq<u8>, data: Seq<u8>) -> Seq<char>
    decreases data.len(),
{
    if data.len() == 0 {
        seq![]
    } else {
        run_text(buf, data.drop_last()) + step_text(
            run_buffer(buf, data.drop_last()),
            data.last(),
        )
    }
}

/// The text that flushing pending bytes yields.
pub open spec fn flushed_text(buf: Seq<u8>) -> Seq<char> {
    if buf.len() == 0 {
        seq![]
    } else {
        utf8_lossy(buf)
    }
}

/// The buffer content after `data` is written, before it is cut to the byte limit.
pub open spec fn written_text(output: Seq<char>, pending: Seq<u8>, data: Seq<u8>) -> Seq<char> {
    output + run_text(pending, data) + flushed_text(run_buffer(pending, data))
}

/// Filters ANSI control sequences out of a byte stream.
pub struct AnsiProcessor {
    buffer: Vec<u8>,
}

impl View for AnsiProcessor {
    type V = Seq<u8>;

    /// The bytes of the control sequence read so far.
    closed spec fn view(&self) -> Seq<u8> {
        self.buffer@
    }
}

impl AnsiProcessor {
    #[verifier::type_invariant]
    spec fn pending_is_escape(&self) -> bool {
        escape_pending(self.buffer@)
    }

    /// A filter with nothing pending.
    pub fn new() -> (p: Self)
        ensures
            p@ == Seq::<u8>::empty(),
            escape_pending(p@),
    {
        AnsiProcessor { buffer: Vec::new() }
    }

    /// Feeds one byte. Returns the text it lets through: the byte as a
    /// character when no control sequence is open and the byte neither opens one
    /// nor is `m`, `h` or `l`. A control sequence is held until `m`, `h` or `l`
    /// closes it, and then dropped.
    pub fn process(&mut self, byte: u8) -> (r: Option<String>)
        ensures
            final(self)@ == step_buffer(old(self)@, byte),
            r is Some <==> step_output(old(self)@, byte) is Some,
            r matches Some(s) ==> s@ == seq![byte as char],
            escape_pending(final(self)@),
    {
        proof {
            use_type_invariant(&*self);
        }
        if byte == 0x6d || byte == 0x68 || byte == 0x6c {
            self.buffer = Vec::new();
            return None;
        }
        if self.buffer.len() == 0 && byte != ESC {
            return Some(char_string(byte as char));
        }
        let mut extended = self.buffer.clone();
        extended.push(byte);
        assert(extended@ =~= step_buffer(old(self)@, byte));
        self.buffer = extended;
        None
    }

    /// Hands out what is pending, decoded as UTF-8 (invalid bytes replaced),
    /// and empties the buffer; `None` when nothing is pending.
    pub fn flush(&mut self) -> (r: Option<String>)
        ensures
            final(self)@ == Seq::<u8>::empty(),
            escape_pending(final(self)@),
            r is Some <==> old(self)@.len() > 0,
            r matches Some(s) ==> s@ == utf8_lossy(old(self)@),
    {
        if self.buffer.len() > 0 {
            let content = decode_lossy(self.buffer.as_slice());
            self.buffer = Vec::new();
            Some(content)
        } else {
            None
        }
    }

    /// A second filter in the same state.
    fn duplicate(&self) -> (p: Self)
        ensures
            p@ == self@,
    {
        proof {
            use_type_invariant(self);
        }
        AnsiProcessor { buffer: self.buffer.clone() }
    }
}

/// The text a remote shell has written, after control sequences are filtered out.
pub struct TerminalEmulator {
    pub terminal_output: String,
    pub cursor_position: usize,
    pub alternate_screen: bool,
    pub ansi_processor: AnsiProcessor,
}

impl Default for TerminalEmulator {
    fn default() -> (t: Self)
        ensures
            t.terminal_output@ == Seq::<char>::empty(),
            t.cursor_position == 0,
            !t.alternate_screen,
            t.ansi_processor@ == Seq::<u8>::empty(),
    {
        TerminalEmulator {
            terminal_output: String::new(),
            cursor_position: 0,
            alternate_screen: false,
            ansi_processor: AnsiProcessor::new(),
        }
    }
}

impl TerminalEmulator {
    /// An empty terminal.
    pub fn new() -> (t: Self)
        ensures
            t.terminal_output@ == Seq::<char>::empty(),
            t.cursor_position == 0,
            !t.alternate_screen,
            t.ansi_processor@ == Seq::<u8>::empty(),
    {
        Self::default()
    }

    /// Filters `data`, appends what passes and what is left pending (the
    /// filter is flushed), then keeps only the last `OUTPUT_BYTE_LIMIT` bytes.
    /// The cut must fall on a character boundary; `try_write` checks that first.
    pub fn write(&mut self, data: &[u8])
        requires
            cut_on_boundary(
                written_text(old(self).terminal_output@, old(self).ansi_processor@, data@),
                OUTPUT_BYTE_LIMIT as nat,
            ),
        ensures
            final(self).terminal_output@ == last_bytes(
                written_text(old(self).terminal_output@, old(self).ansi_processor@, data@),
                OUTPUT_BYTE_LIMIT as nat,
            ),
            final(self).ansi_processor@ == Seq::<u8>::empty(),
            final(self).cursor_position == old(self).cursor_position,
            final(self).alternate_screen == old(self).alternate_screen,
            utf8_len(final(self).terminal_output@) <= OUTPUT_BYTE_LIMIT,
    {
        append_written(&mut self.terminal_output, &mut self.ansi_processor, data);
        keep_last_bytes(&mut self.terminal_output);
    }

    /// `write` where its cut falls on a character boundary; otherwise the
    /// terminal is left as it was and the result is `false`.
    pub fn try_write(&mut self, data: &[u8]) -> (ok: bool)
        ensures
            ok == cut_on_boundary(
                written_text(old(self).terminal_output@, old(self).ansi_processor@, data@),
                OUTPUT_BYTE_LIMIT as nat,
            ),
            ok ==> final(self).terminal_output@ == last_bytes(
                written_text(old(self).terminal_output@, old(self).ansi_processor@, data@),
                OUTPUT_BYTE_LIMIT as nat,
            ),
            ok ==> final(self).ansi_processor@ == Seq::<u8>::empty(),
            !ok ==> final(self).terminal_output@ == old(self).terminal_output@,
            !ok ==> final(self).ansi_processor@ == old(self).ansi_processor@,
            final(self).cursor_position == old(self).cursor_position,
            final(self).alternate_screen == old(self).alternate_screen,
    {
        let mut probe_output = self.terminal_output.clone();
        let mut probe_filter = self.ansi_processor.duplicate();
        append_written(&mut probe_output, &mut probe_filter, data);
        let chars = to_chars(probe_output.as_str());
        let (start, kept) = tail_start_by_bytes(&chars, OUTPUT_BYTE_LIMIT);
        if start == 0 || kept == OUTPUT_BYTE_LIMIT {
            proof {
                lemma_cut_on_boundary_iff(chars@, start as int, kept as nat);
            }
            self.write(data);
            true
        } else {
            proof {
                lemma_cut_on_boundary_iff(chars@, start as int, kept as nat);
            }
            false
        }
    }

    /// No input is taken from the terminal itself; always empty.
    pub fn read(&mut self) -> (r: Vec<u8>)
        ensures
            r@ == Seq::<u8>::empty(),
            *final(self) == *old(self),
    {
        Vec::new()
    }

    /// Switches to the alternate screen, which starts blank.
    pub fn enter_alternate_screen(&mut self)
        ensures
            final(self).alternate_screen,
            final(self).terminal_output@ == Seq::<char>::empty(),
            final(self).cursor_position == old(self).cursor_position,
            final(self).ansi_processor@ == old(self).ansi_processor@,
    {
        self.alternate_screen = true;
        self.terminal_output = String::new();
    }

    /// Leaves the alternate screen; the text is kept.
    pub fn leave_alternate_screen(&mut self)
        ensures
            !final(self).alternate_screen,
            final(self).terminal_output == old(self).terminal_output,
            final(self).cursor_position == old(self).cursor_position,
            final(self).ansi_processor@ == old(self).ansi_processor@,
    {
        self.alternate_screen = false;
    }

    /// The buffered text.
    pub fn get_output(&self) -> (r: &str)
        ensures
            r@ == self.terminal_output@,
    {
        self.terminal_output.as_str()
    }

    /// The buffered text.
    pub fn get_content(&self) -> (r: &str)
        ensures
            r@ == self.terminal_output@,
    {
        self.terminal_output.as_str()
    }

    /// The buffered text, for editing in place.
    pub fn get_content_mut(&mut self) -> (r: &mut String)
        ensures
            *r == old(self).terminal_output,
            final(self).terminal_output == *final(r),
            final(self).cursor_position == old(self).cursor_position,
            final(self).alternate_screen == old(self).alternate_screen,
            final(self).ansi_processor@ == old(self).ansi_processor@,
    {
        &mut self.terminal_output
    }
}

/// Runs `data` through `filter`, appending what passes to `output`, then flushes
/// the filter into `output`.
fn append_written(output: &mut String, filter: &mut AnsiProcessor, data: &[u8])
    ensures
        final(output)@ == written_text(old(output)@, old(filter)@, data@),
        final(filter)@ == Seq::<u8>::empty(),
{
    let ghost out0 = output@;
    let ghost buf0 = filter@;
    let mut i: usize = 0;
    while i < data.len()
        invariant
            0 <= i <= data@.len(),
            filter@ == run_buffer(buf0, data@.take(i as int)),
            output@ == out0 + run_text(buf0, data@.take(i as int)),
        decreases data@.len() - i,
    {
        let byte = data[i];
        let ghost before = filter@;
        let passed = filter.process(byte);
        if let Some(t) = passed {
            output.append(t.as_str());
        }
        proof {
            let pre = data@.take(i as int);
            let next = data@.take(i + 1);
            assert(next.drop_last() =~= pre);
            assert(next.last() == byte);
            assert(out0 + run_text(buf0, next) =~= out0 + run_text(buf0, pre) + step_text(before, byte));
        }
        i = i + 1;
    }
    assert(data@.take(data@.len() as int) =~= data@);
    let rest = filter.flush();
    if let Some(t) = rest {
        output.append(t.as_str());
    }
    assert(written_text(out0, buf0, data@) =~= output@);
}

/// First position of `chars` from which the rest takes at most `bound` bytes,
/// and the bytes it takes.
fn tail_start_by_bytes(chars: &Vec<char>, bound: usize) -> (r: (usize, usize))
    requires
        bound <= 1_000_000,
    ensures
        r.0 <= chars@.len(),
        r.1 == weight_sum(chars@.skip(r.0 as int), utf8_width()),
        r.1 <= bound,
        r.0 == 0 || weight_sum(chars@.skip(r.0 - 1), utf8_width()) > bound,
{
    let mut j = chars.len();
    let mut acc: usize = 0;
    assert(chars@.skip(j as int) =~= Seq::<char>::empty());
    loop
        invariant
            j <= chars@.len(),
            acc == weight_sum(chars@.skip(j as int), utf8_width()),
            acc <= bound,
            bound <= 1_000_000,
        ensures
            j <= chars@.len(),
            acc == weight_sum(chars@.skip(j as int), utf8_width()),
            acc <= bound,
            j == 0 || weight_sum(chars@.skip(j - 1), utf8_width()) > bound,
        decreases j,
    {
        if j == 0 {
            break;
        }
        let w = char_width(chars[j - 1]);
        proof {
            lemma_weight_skip(chars@, utf8_width(), j - 1);
        }
        if acc + w > bound {
            break;
        }
        acc = acc + w;
        j = j - 1;
    }
    (j, acc)
}

/// How the position found by `tail_start_by_bytes` tells whether the cut is on a
/// boundary, and which suffix `last_bytes` is.
proof fn lemma_cut_on_boundary_iff(s: Seq<char>, j: int, kept: nat)
    requires
        0 <= j <= s.len(),
        kept == weight_sum(s.skip(j), utf8_width()),
        kept <= OUTPUT_BYTE_LIMIT,
        j == 0 || weight_sum(s.skip(j - 1), utf8_width()) > OUTPUT_BYTE_LIMIT,
    ensures
        last_bytes(s, OUTPUT_BYTE_LIMIT as nat) == s.skip(j),
        utf8_len(s.skip(j)) == kept,
        cut_on_boundary(s, OUTPUT_BYTE_LIMIT as nat) <==> (j == 0 || kept == OUTPUT_BYTE_LIMIT),
{
    lemma_tail_is_skip(s, utf8_width(), OUTPUT_BYTE_LIMIT as nat, j);
    lemma_utf8_len_is_width_sum(s.skip(j));
    lemma_utf8_len_is_width_sum(s);
    assert(s.skip(0) =~= s);
    if j > 0 {
        lemma_weight_skip_mono(s, utf8_width(), 0, j - 1);
    }
}

/// Keeps the last `OUTPUT_BYTE_LIMIT` bytes of `output`.
fn keep_last_bytes(output: &mut String)
    requires
        cut_on_boundary(old(output)@, OUTPUT_BYTE_LIMIT as nat),
    ensures
        final(output)@ == last_bytes(old(output)@, OUTPUT_BYTE_LIMIT as nat),
        utf8_len(final(output)@) <= OUTPUT_BYTE_LIMIT,
{
    let chars = to_chars(output.as_str());
    let (start, kept) = tail_start_by_bytes(&chars, OUTPUT_BYTE_LIMIT);
    proof {
        lemma_cut_on_boundary_iff(chars@, start as int, kept as nat);
    }
    if start > 0 {
        *output = string_from(&chars, start);
    } else {
        assert(chars@.skip(0) =~= chars@);
    }
}

/// Law: bytes that are neither ESC nor `m`, `h`, `l` pass the filter one for
/// one, as the characters of their codes, and leave nothing pending.
pub proof fn law_plain_bytes_pass(data: Seq<u8>)
    requires
        forall|i: int| 0 <= i < data.len() ==> #[trigger] data[i] != ESC && !is_sequence_end(data[i]),
    ensures
        run_buffer(seq![], data) == Seq::<u8>::empty(),
        run_text(seq![], data) == data.map_values(|b: u8| b as char),
    decreases data.len(),
{
    if data.len() > 0 {
        let prefix = data.drop_last();
        assert forall|i: int| 0 <= i < prefix.len() implies #[trigger] prefix[i] != ESC
            && !is_sequence_end(prefix[i]) by {
            assert(prefix[i] == data[i]);
        }
        law_plain_bytes_pass(prefix);
        assert(data.last() == data[data.len() - 1]);
        assert(data.map_values(|b: u8| b as char) =~= prefix.map_values(|b: u8| b as char).push(
            data.last() as char,
        ));
    }
}

/// Run of the filter over the body of an escape sequence.
proof fn lemma_escape_body(body: Seq<u8>)
    requires
        forall|i: int| 0 <= i < body.len() ==> !is_sequence_end(#[trigger] body[i]),
    ensures
        run_buffer(seq![], seq![ESC] + body) == seq![ESC] + body,
        run_text(seq![], seq![ESC] + body) == Seq::<char>::empty(),
    decreases body.len(),
{
    let d = seq![ESC] + body;
    if body.len() == 0 {
        assert(d.drop_last() =~= Seq::<u8>::empty());
        assert(d.last() == ESC);
        assert(run_buffer(seq![], d.drop_last()) == Seq::<u8>::empty());
        assert(run_text(seq![], d.drop_last()) == Seq::<char>::empty());
        assert(step_buffer(Seq::<u8>::empty(), ESC) =~= seq![ESC]);
        assert(d =~= seq![ESC]);
        assert(run_text(seq![], d) =~= Seq::<char>::empty());
    } else {
        let prefix = body.drop_last();
        assert forall|i: int| 0 <= i < prefix.len() implies !is_sequence_end(#[trigger] prefix[i]) by {
            assert(prefix[i] == body[i]);
        }
        lemma_escape_body(prefix);
        assert(d.drop_last() =~= seq![ESC] + prefix);
        assert(d.last() == body[body.len() - 1]);
        assert((seq![ESC] + prefix).push(d.last()) =~= d);
        assert(step_buffer(seq![ESC] + prefix, d.last()) =~= d);
        assert(run_text(seq![], d) =~= Seq::<char>::empty());
    }
}

/// Law: a control sequence (ESC, bytes other than `m`, `h`, `l`, then one of
/// them) that arrives while nothing is pending leaves no text and nothing pending.
pub proof fn law_escape_sequence_dropped(body: Seq<u8>, end: u8)
    requires
        forall|i: int| 0 <= i < body.len() ==> !is_sequence_end(#[trigger] body[i]),
        is_sequence_end(end),
    ensures
        run_buffer(seq![], seq![ESC] + body + seq![end]) == Seq::<u8>::empty(),
        run_text(seq![], seq![ESC] + body + seq![end]) == Seq::<char>::empty(),
{
    lemma_escape_body(body);
    let d = seq![ESC] + body + seq![end];
    assert(d.drop_last() =~= seq![ESC] + body);
    assert(d.last() == end);
}

/// Law: what `write` keeps of the written text weighs at most
/// `OUTPUT_BYTE_LIMIT` bytes, is a suffix of it, is all of it when it is
/// short, and when the cut falls on a character boundary is exactly the last
/// `OUTPUT_BYTE_LIMIT` bytes of its UTF-8 encoding.
pub proof fn law_write_keeps_last_bytes(output: Seq<char>, pending: Seq<u8>, data: Seq<u8>)
    ensures
        ({
            let s = written_text(output, pending, data);
            let kept = last_bytes(s, OUTPUT_BYTE_LIMIT as nat);
            &&& utf8_len(kept) <= OUTPUT_BYTE_LIMIT
            &&& exists|k: int| 0 <= k <= s.len() && #[trigger] s.skip(k) == kept
            &&& utf8_len(s) <= OUTPUT_BYTE_LIMIT ==> kept == s
            &&& cut_on_boundary(s, OUTPUT_BYTE_LIMIT as nat) && utf8_len(s) > OUTPUT_BYTE_LIMIT
                ==> encode_utf8(kept) == encode_utf8(s).subrange(
                utf8_len(s) - OUTPUT_BYTE_LIMIT,
                utf8_len(s) as int,
            )
        }),
{
    let s = written_text(output, pending, data);
    lemma_tail_within_props(s, utf8_width(), OUTPUT_BYTE_LIMIT as nat);
    lemma_utf8_len_is_width_sum(last_bytes(s, OUTPUT_BYTE_LIMIT as nat));
    lemma_utf8_len_is_width_sum(s);
    if s.len() > 0 && utf8_len(s) <= OUTPUT_BYTE_LIMIT {
        assert(last_bytes(s, OUTPUT_BYTE_LIMIT as nat) == s);
    }
    if cut_on_boundary(s, OUTPUT_BYTE_LIMIT as nat) && utf8_len(s) > OUTPUT_BYTE_LIMIT {
        lemma_last_bytes_encoding(s, OUTPUT_BYTE_LIMIT as nat);
    }
}

/// Running the filter over `a` then `b` is running it over `a + b`.
pub proof fn lemma_run_append(buf: Seq<u8>, a: Seq<u8>, b: Seq<u8>)
    ensures
        run_buffer(buf, a + b) == run_buffer(run_buffer(buf, a), b),
        run_text(buf, a + b) == run_text(buf, a) + run_text(run_buffer(buf, a), b),
    decreases b.len(),
{
    if b.len() == 0 {
        assert(a + b =~= a);
        assert(run_text(buf, a) + run_text(run_buffer(buf, a), b) =~= run_text(buf, a));
    } else {
        lemma_run_append(buf, a, b.drop_last());
        assert((a + b).drop_last() =~= a + b.drop_last());
        assert((a + b).last() == b.last());
        let mid = run_buffer(buf, a);
        assert(run_text(buf, a + b) =~= run_text(buf, a) + run_text(mid, b));
    }
}

/// Law: from any well-formed pending state, every state the filter reaches
/// is well formed: pending bytes are none, or start with ESC and hold no `m`,
/// `h` or `l`. Flushing empties them, which is well formed too.
pub proof fn law_reachable_pending(buf: Seq<u8>, data: Seq<u8>)
    requires
        escape_pending(buf),
    ensures
        escape_pending(run_buffer(buf, data)),
        escape_pending(Seq::<u8>::empty()),
    decreases data.len(),
{
    if data.len() > 0 {
        law_reachable_pending(buf, data.drop_last());
        let prev = run_buffer(buf, data.drop_last());
        let next = step_buffer(prev, data.last());
        if !(is_sequence_end(data.last()) || (prev.len() == 0 && data.last() != ESC)) {
            assert forall|i: int| 0 <= i < next.len() implies !is_sequence_end(#[trigger] next[i]) by {
                if i < prev.len() {
                    assert(next[i] == prev[i]);
                }
            }
        }
    }
}

/// Law: two writes are one write of the joined data, when the first leaves
/// nothing pending and the text stays within the byte limit, so that no cut
/// happens.
pub proof fn law_writes_compose(output: Seq<char>, pending: Seq<u8>, a: Seq<u8>, b: Seq<u8>)
    requires
        run_buffer(pending, a) == Seq::<u8>::empty(),
        utf8_len(written_text(output, pending, a + b)) <= OUTPUT_BYTE_LIMIT,
    ensures
        last_bytes(
            written_text(
                last_bytes(written_text(output, pending, a), OUTPUT_BYTE_LIMIT as nat),
                Seq::<u8>::empty(),
                b,
            ),
            OUTPUT_BYTE_LIMIT as nat,
        ) == last_bytes(written_text(output, pending, a + b), OUTPUT_BYTE_LIMIT as nat),
{
    lemma_run_append(pending, a, b);
    let first = written_text(output, pending, a);
    let whole = written_text(output, pending, a + b);
    let rest = run_text(Seq::<u8>::empty(), b) + flushed_text(run_buffer(Seq::<u8>::empty(), b));
    assert(first =~= output + run_text(pending, a));
    assert(whole =~= first + rest);
    lemma_encode_utf8_append(first, rest);
    lemma_short_is_own_tail(first);
    assert(written_text(first, Seq::<u8>::empty(), b) =~= whole);
}

/// A text of at most `OUTPUT_BYTE_LIMIT` bytes is kept whole.
proof fn lemma_short_is_own_tail(s: Seq<char>)
    requires
        utf8_len(s) <= OUTPUT_BYTE_LIMIT,
    ensures
        last_bytes(s, OUTPUT_BYTE_LIMIT as nat) == s,
{
    lemma_utf8_len_is_width_sum(s);
}

} // verus!

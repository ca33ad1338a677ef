//! The on-disk row format: comma-separated fields, one record per line, a
//! field quoted (with inner quotes doubled) exactly when it holds a comma,
//! quote, or line break.  Encoding a row and reading back the last record of
//! a log are both defined here, against the same specification functions.

use vstd::prelude::*;

verus! {

pub const QUOTE: u8 = 34;

pub const COMMA: u8 = 44;

pub const LF: u8 = 10;

pub const CR: u8 = 13;

/// Bytes that force a field to be written quoted.
pub open spec fn is_special(b: u8) -> bool {
    b == QUOTE || b == COMMA || b == LF || b == CR
}

/// Does the field need quoting?
pub open spec fn needs_quoting(f: Seq<u8>) -> bool {
    exists|i: int| 0 <= i < f.len() && is_special(#[trigger] f[i])
}

/// The field's bytes with every quote written twice.
pub open spec fn doubled_quotes(f: Seq<u8>) -> Seq<u8>
    decreases f.len(),
{
    if f.len() == 0 {
        Seq::empty()
    } else if f[0] == QUOTE {
        seq![QUOTE, QUOTE] + doubled_quotes(f.skip(1))
    } else {
        seq![f[0]] + doubled_quotes(f.skip(1))
    }
}

/// How one field is written: bare when harmless, quoted with doubled inner
/// quotes otherwise.
pub open spec fn encode_field_spec(f: Seq<u8>) -> Seq<u8> {
    if needs_quoting(f) {
        seq![QUOTE] + doubled_quotes(f) + seq![QUOTE]
    } else {
        f
    }
}

/// The fields of one record written out, separated by commas.
pub open spec fn joined_fields(fields: Seq<Seq<u8>>) -> Seq<u8>
    decreases fields.len(),
{
    if fields.len() == 0 {
        Seq::empty()
    } else if fields.len() == 1 {
        encode_field_spec(fields[0])
    } else {
        joined_fields(fields.drop_last()) + seq![COMMA] + encode_field_spec(fields.last())
    }
}

/// How one record is written: its joined fields and a terminating line feed.
pub open spec fn encode_row_spec(fields: Seq<Seq<u8>>) -> Seq<u8> {
    joined_fields(fields) + seq![LF]
}

/// How many quote bytes `s` holds.
pub open spec fn quote_count(s: Seq<u8>) -> nat
    decreases s.len(),
{
    if s.len() == 0 {
        0
    } else {
        quote_count(s.drop_last()) + (if s.last() == QUOTE {
            1nat
        } else {
            0nat
        })
    }
}

/// A line feed at `j` separates two records exactly when the quotes before it
/// are balanced.
pub open spec fn is_boundary(s: Seq<u8>, j: int) -> bool {
    0 <= j < s.len() && s[j] == LF && quote_count(s.take(j)) % 2 == 0
}

/// Where the record still open at the end of `s` begins: the position after
/// the last record boundary, or 0 when there is none.
pub open spec fn last_start(s: Seq<u8>) -> int
    decreases s.len(),
{
    if s.len() == 0 {
        0
    } else if is_boundary(s, s.len() - 1) {
        s.len() as int
    } else {
        last_start(s.drop_last())
    }
}

/// The last record of a log: the bytes after the final record boundary or,
/// when the log ends at a boundary, the record that boundary closed.  An
/// empty log has no record.
pub open spec fn last_record(s: Seq<u8>) -> Option<Seq<u8>> {
    if s.len() == 0 {
        None
    } else if last_start(s) < s.len() {
        Some(s.subrange(last_start(s), s.len() as int))
    } else {
        Some(s.subrange(last_start(s.drop_last()), s.len() - 1))
    }
}

/// The position of the first comma of `s`, or its length when there is none.
pub open spec fn first_comma(s: Seq<u8>) -> int
    decreases s.len(),
{
    if s.len() == 0 {
        0
    } else if s[0] == COMMA {
        0
    } else {
        1 + first_comma(s.skip(1))
    }
}

/// What a quoted field holds, reading after its opening quote: doubled quotes
/// fold back to one, a lone quote closes the field, and a field that is never
/// closed runs to the end.
pub open spec fn unescape_quoted(s: Seq<u8>) -> Seq<u8>
    decreases s.len(),
{
    if s.len() == 0 {
        Seq::empty()
    } else if s[0] == QUOTE {
        if s.len() >= 2 && s[1] == QUOTE {
            seq![QUOTE] + unescape_quoted(s.skip(2))
        } else {
            Seq::empty()
        }
    } else {
        seq![s[0]] + unescape_quoted(s.skip(1))
    }
}

/// The first field of a record: unquoted it runs to the first comma, quoted
/// it is read back through `unescape_quoted`.
pub open spec fn first_field(rec: Seq<u8>) -> Seq<u8> {
    if rec.len() > 0 && rec[0] == QUOTE {
        unescape_quoted(rec.skip(1))
    } else {
        rec.take(first_comma(rec))
    }
}

/// `last_start` names a position of `s`, one right after a boundary, with no
/// boundary after it.
proof fn lemma_last_start_char(s: Seq<u8>)
    ensures
        0 <= last_start(s) <= s.len(),
        last_start(s) > 0 ==> is_boundary(s, last_start(s) - 1),
        forall|j: int| last_start(s) <= j < s.len() ==> !is_boundary(s, j),
    decreases s.len(),
{
    if s.len() > 0 && !is_boundary(s, s.len() - 1) {
        lemma_last_start_char(s.drop_last());
        assert forall|j: int| 0 <= j < s.len() - 1 implies is_boundary(s, j) == is_boundary(
            s.drop_last(),
            j,
        ) by {
            assert(s.drop_last().take(j) =~= s.take(j));
        }
    }
}

/// `first_comma` names the first comma of `s`, or its end.
proof fn lemma_first_comma_char(s: Seq<u8>)
    ensures
        0 <= first_comma(s) <= s.len(),
        first_comma(s) < s.len() ==> s[first_comma(s)] == COMMA,
        forall|j: int| 0 <= j < first_comma(s) ==> s[j] != COMMA,
    decreases s.len(),
{
    if s.len() > 0 && s[0] != COMMA {
        lemma_first_comma_char(s.skip(1));
        assert forall|j: int| 0 <= j < first_comma(s) implies s[j] != COMMA by {
            if j >= 1 {
                assert(s.skip(1)[j - 1] == s[j]);
                assert(s.skip(1)[j - 1] != COMMA);
            }
        }
    }
}

/// Doubling quotes distributes over extending the field by one byte.
proof fn lemma_doubled_quotes_push(s: Seq<u8>, x: u8)
    ensures
        doubled_quotes(s.push(x)) == doubled_quotes(s) + (if x == QUOTE {
            seq![QUOTE, QUOTE]
        } else {
            seq![x]
        }),
    decreases s.len(),
{
    if s.len() == 0 {
        let t = s.push(x);
        assert(t.len() == 1);
        assert(t[0] == x);
        assert(t.skip(1) =~= Seq::<u8>::empty());
        assert(doubled_quotes(t.skip(1)) == Seq::<u8>::empty());
        if x == QUOTE {
            assert(doubled_quotes(t) == seq![QUOTE, QUOTE] + doubled_quotes(t.skip(1)));
            assert(doubled_quotes(t) =~= seq![QUOTE, QUOTE]);
            assert(doubled_quotes(s) + seq![QUOTE, QUOTE] =~= seq![QUOTE, QUOTE]);
        } else {
            assert(doubled_quotes(t) == seq![x] + doubled_quotes(t.skip(1)));
            assert(doubled_quotes(t) =~= seq![x]);
            assert(doubled_quotes(s) + seq![x] =~= seq![x]);
        }
    } else {
        assert(s.push(x).skip(1) =~= s.skip(1).push(x));
        lemma_doubled_quotes_push(s.skip(1), x);
        assert(s.push(x)[0] == s[0]);
        if s[0] == QUOTE {
            assert(doubled_quotes(s.push(x)) =~= doubled_quotes(s) + (if x == QUOTE {
                seq![QUOTE, QUOTE]
            } else {
                seq![x]
            }));
        } else {
            assert(doubled_quotes(s.push(x)) =~= doubled_quotes(s) + (if x == QUOTE {
                seq![QUOTE, QUOTE]
            } else {
                seq![x]
            }));
        }
    }
}

/// Does the field need quoting when written?
fn field_needs_quoting(f: &Vec<u8>) -> (b: bool)
    ensures
        b == needs_quoting(f@),
{
    let mut i: usize = 0;
    while i < f.len()
        invariant
            0 <= i <= f@.len(),
            forall|j: int| 0 <= j < i ==> !is_special(#[trigger] f@[j]),
        decreases f@.len() - i,
    {
        let b: u8 = f[i];
        if b == QUOTE || b == COMMA || b == LF || b == CR {
            return true;
        }
        i = i + 1;
    }
    false
}

/// Writes one field as the row format fixes it.
pub fn encode_field(f: &Vec<u8>) -> (out: Vec<u8>)
    ensures
        out@ == encode_field_spec(f@),
{
    if !field_needs_quoting(f) {
        let mut out: Vec<u8> = Vec::new();
        let mut i: usize = 0;
        while i < f.len()
            invariant
                0 <= i <= f@.len(),
                out@ =~= f@.take(i as int),
            decreases f@.len() - i,
        {
            out.push(f[i]);
            i = i + 1;
        }
        proof {
            assert(out@ =~= f@);
        }
        out
    } else {
        let mut out: Vec<u8> = Vec::new();
        out.push(QUOTE);
        let mut i: usize = 0;
        while i < f.len()
            invariant
                0 <= i <= f@.len(),
                out@ =~= seq![QUOTE] + doubled_quotes(f@.take(i as int)),
            decreases f@.len() - i,
        {
            let b: u8 = f[i];
            proof {
                lemma_doubled_quotes_push(f@.take(i as int), b);
                assert(f@.take(i + 1) =~= f@.take(i as int).push(b));
            }
            if b == QUOTE {
                out.push(QUOTE);
                out.push(QUOTE);
            } else {
                out.push(b);
            }
            i = i + 1;
        }
        out.push(QUOTE);
        proof {
            assert(f@.take(f@.len() as int) =~= f@);
            assert(out@ =~= seq![QUOTE] + doubled_quotes(f@) + seq![QUOTE]);
        }
        out
    }
}

/// Writes one record: the encoded fields, commas between them, a line feed
/// after them.
pub fn encode_row(fields: &Vec<Vec<u8>>) -> (out: Vec<u8>)
    ensures
        out@ == encode_row_spec(fields.deep_view()),
{
    let mut out: Vec<u8> = Vec::new();
    let mut i: usize = 0;
    while i < fields.len()
        invariant
            0 <= i <= fields@.len(),
            fields.deep_view().len() == fields@.len(),
            forall|j: int|
                0 <= j < fields@.len() ==> fields.deep_view()[j] == #[trigger] fields@[j]@,
            out@ == joined_fields(fields.deep_view().take(i as int)),
        decreases fields@.len() - i,
    {
        if i > 0 {
            out.push(COMMA);
        }
        let mut ef: Vec<u8> = encode_field(&fields[i]);
        out.append(&mut ef);
        proof {
            let dv = fields.deep_view();
            assert(dv.take(i + 1).drop_last() =~= dv.take(i as int));
            assert(dv.take(i + 1).last() == dv[i as int]);
            assert(out@ =~= joined_fields(dv.take(i + 1)));
        }
        i = i + 1;
    }
    out.push(LF);
    proof {
        assert(fields.deep_view().take(fields@.len() as int) =~= fields.deep_view());
        assert(out@ =~= encode_row_spec(fields.deep_view()));
    }
    out
}

/// A log to which rows may be appended: its quotes are balanced and it is
/// empty or ends at a record boundary's line feed.  The empty log is
/// well formed, and appending an encoded row keeps a log well formed.
pub open spec fn wf_log(s: Seq<u8>) -> bool {
    quote_count(s) % 2 == 0 && (s.len() == 0 || s.last() == LF)
}

/// Quote counting distributes over concatenation.
proof fn lemma_quote_count_concat(a: Seq<u8>, b: Seq<u8>)
    ensures
        quote_count(a + b) == quote_count(a) + quote_count(b),
    decreases b.len(),
{
    if b.len() == 0 {
        assert(a + b =~= a);
    } else {
        lemma_quote_count_concat(a, b.drop_last());
        assert((a + b).drop_last() =~= a + b.drop_last());
        assert((a + b).last() == b.last());
    }
}

/// A field that needs no quoting holds no quotes.
proof fn lemma_no_special_quote_count(f: Seq<u8>)
    requires
        !needs_quoting(f),
    ensures
        quote_count(f) == 0,
    decreases f.len(),
{
    if f.len() > 0 {
        assert(!is_special(f.last()));
        assert(!needs_quoting(f.drop_last())) by {
            assert forall|i: int| 0 <= i < f.drop_last().len() implies !is_special(
                #[trigger] f.drop_last()[i],
            ) by {
                assert(f.drop_last()[i] == f[i]);
            }
        }
        lemma_no_special_quote_count(f.drop_last());
    }
}

/// Doubling quotes leaves an even number of them.
proof fn lemma_doubled_quotes_even(f: Seq<u8>)
    ensures
        quote_count(doubled_quotes(f)) % 2 == 0,
    decreases f.len(),
{
    if f.len() > 0 {
        lemma_doubled_quotes_even(f.skip(1));
        if f[0] == QUOTE {
            lemma_quote_count_concat(seq![QUOTE, QUOTE], doubled_quotes(f.skip(1)));
            lemma_quote_count_pair();
        } else {
            lemma_quote_count_concat(seq![f[0]], doubled_quotes(f.skip(1)));
            lemma_quote_count_single(f[0]);
        }
    }
}

/// The quote count of one byte.
proof fn lemma_quote_count_single(x: u8)
    ensures
        quote_count(seq![x]) == (if x == QUOTE {
            1nat
        } else {
            0nat
        }),
{
    assert(seq![x].drop_last() =~= Seq::<u8>::empty());
    assert(quote_count(Seq::<u8>::empty()) == 0);
    assert(seq![x].last() == x);
}

/// The quote count of a doubled quote pair.
proof fn lemma_quote_count_pair()
    ensures
        quote_count(seq![QUOTE, QUOTE]) == 2,
{
    assert(seq![QUOTE, QUOTE].drop_last() =~= seq![QUOTE]);
    lemma_quote_count_single(QUOTE);
    assert(seq![QUOTE, QUOTE].last() == QUOTE);
}

/// Within a quote-doubled field, every line feed sits at balanced quotes.
proof fn lemma_doubled_quotes_lf(f: Seq<u8>)
    ensures
        forall|m: int|
            0 <= m < doubled_quotes(f).len() && doubled_quotes(f)[m] == LF ==> quote_count(
                doubled_quotes(f).take(m),
            ) % 2 == 0,
    decreases f.len(),
{
    if f.len() > 0 {
        lemma_doubled_quotes_lf(f.skip(1));
        let chunk = if f[0] == QUOTE {
            seq![QUOTE, QUOTE]
        } else {
            seq![f[0]]
        };
        let rest = doubled_quotes(f.skip(1));
        assert(doubled_quotes(f) == chunk + rest);
        assert forall|m: int|
            0 <= m < doubled_quotes(f).len() && doubled_quotes(f)[m] == LF implies quote_count(
            doubled_quotes(f).take(m),
        ) % 2 == 0 by {
            if m < chunk.len() {
                assert(m == 0);
                assert(doubled_quotes(f).take(0) =~= Seq::<u8>::empty());
                assert(quote_count(Seq::<u8>::empty()) == 0);
            } else {
                let m2 = m - chunk.len();
                assert(rest[m2] == LF);
                assert(doubled_quotes(f).take(m) =~= chunk + rest.take(m2));
                lemma_quote_count_concat(chunk, rest.take(m2));
                if f[0] == QUOTE {
                    lemma_quote_count_pair();
                } else {
                    lemma_quote_count_single(f[0]);
                }
            }
        }
    }
}

/// An encoded field holds an even number of quotes.
proof fn lemma_encode_field_even(f: Seq<u8>)
    ensures
        quote_count(encode_field_spec(f)) % 2 == 0,
{
    if needs_quoting(f) {
        lemma_doubled_quotes_even(f);
        lemma_quote_count_concat(seq![QUOTE], doubled_quotes(f));
        lemma_quote_count_concat(seq![QUOTE] + doubled_quotes(f), seq![QUOTE]);
        lemma_quote_count_single(QUOTE);
    } else {
        lemma_no_special_quote_count(f);
    }
}

/// Within an encoded field, every line feed sits behind an odd number of
/// quotes: it cannot be mistaken for a record boundary.
proof fn lemma_encode_field_lf(f: Seq<u8>)
    ensures
        forall|j: int|
            0 <= j < encode_field_spec(f).len() && encode_field_spec(f)[j] == LF ==> quote_count(
                encode_field_spec(f).take(j),
            ) % 2 == 1,
{
    let enc = encode_field_spec(f);
    if needs_quoting(f) {
        lemma_doubled_quotes_lf(f);
        assert forall|j: int| 0 <= j < enc.len() && enc[j] == LF implies quote_count(enc.take(j))
            % 2 == 1 by {
            let d = doubled_quotes(f);
            assert(enc == seq![QUOTE] + d + seq![QUOTE]);
            assert(enc.len() == d.len() + 2);
            if j == 0 {
                assert(enc[0] == QUOTE);
            } else if j == enc.len() - 1 {
                assert(enc[j] == QUOTE);
            } else {
                assert(d[j - 1] == LF);
                assert(enc.take(j) =~= seq![QUOTE] + d.take(j - 1));
                lemma_quote_count_concat(seq![QUOTE], d.take(j - 1));
                lemma_quote_count_single(QUOTE);
            }
        }
    } else {
        assert forall|j: int| 0 <= j < enc.len() && enc[j] == LF implies quote_count(enc.take(j))
            % 2 == 1 by {
            assert(is_special(f[j]));
        }
    }
}

/// A joined record holds an even number of quotes.
proof fn lemma_joined_fields_even(fields: Seq<Seq<u8>>)
    ensures
        quote_count(joined_fields(fields)) % 2 == 0,
    decreases fields.len(),
{
    if fields.len() == 1 {
        lemma_encode_field_even(fields[0]);
    } else if fields.len() > 1 {
        lemma_joined_fields_even(fields.drop_last());
        lemma_encode_field_even(fields.last());
        lemma_quote_count_concat(joined_fields(fields.drop_last()), seq![COMMA]);
        lemma_quote_count_concat(
            joined_fields(fields.drop_last()) + seq![COMMA],
            encode_field_spec(fields.last()),
        );
        lemma_quote_count_single(COMMA);
    }
}

/// Within a joined record, every line feed sits behind an odd number of
/// quotes.
proof fn lemma_joined_fields_lf(fields: Seq<Seq<u8>>)
    ensures
        forall|j: int|
            0 <= j < joined_fields(fields).len() && joined_fields(fields)[j] == LF ==> quote_count(
                joined_fields(fields).take(j),
            ) % 2 == 1,
    decreases fields.len(),
{
    if fields.len() == 1 {
        lemma_encode_field_lf(fields[0]);
        assert(joined_fields(fields) == encode_field_spec(fields[0]));
    } else if fields.len() > 1 {
        lemma_joined_fields_lf(fields.drop_last());
        lemma_encode_field_lf(fields.last());
        let head = joined_fields(fields.drop_last());
        let enc = encode_field_spec(fields.last());
        let whole = joined_fields(fields);
        assert(whole == head + seq![COMMA] + enc);
        assert forall|j: int| 0 <= j < whole.len() && whole[j] == LF implies quote_count(
            whole.take(j),
        ) % 2 == 1 by {
            if j < head.len() {
                assert(whole[j] == head[j]);
                assert(whole.take(j) =~= head.take(j));
            } else if j == head.len() {
                assert(whole[j] == COMMA);
            } else {
                let m = j - head.len() - 1;
                assert(whole[j] == enc[m]);
                assert(whole.take(j) =~= head + seq![COMMA] + enc.take(m));
                lemma_quote_count_concat(head, seq![COMMA]);
                lemma_quote_count_concat(head + seq![COMMA], enc.take(m));
                lemma_quote_count_single(COMMA);
                lemma_joined_fields_even(fields.drop_last());
            }
        }
    }
}

/// A position right after a boundary (or the start), with no boundary after
/// it, is where the open record begins.
proof fn lemma_last_start_from(s: Seq<u8>, b: int)
    requires
        0 <= b <= s.len(),
        b == 0 || is_boundary(s, b - 1),
        forall|j: int| b <= j < s.len() ==> !is_boundary(s, j),
    ensures
        last_start(s) == b,
    decreases s.len(),
{
    if s.len() == 0 {
    } else if b == s.len() {
        assert(is_boundary(s, s.len() - 1));
    } else {
        assert(!is_boundary(s, s.len() - 1));
        assert forall|j: int| b <= j < s.drop_last().len() implies !is_boundary(
            s.drop_last(),
            j,
        ) by {
            assert(s.drop_last().take(j) =~= s.take(j));
            assert(s.drop_last()[j] == s[j]);
            assert(!is_boundary(s, j));
        }
        if b > 0 {
            assert(s.drop_last().take(b - 1) =~= s.take(b - 1));
            assert(s.drop_last()[b - 1] == s[b - 1]);
            assert(is_boundary(s.drop_last(), b - 1));
        }
        lemma_last_start_from(s.drop_last(), b);
    }
}

/// Appending one encoded row to a well-formed log keeps it well formed and
/// makes that row (without its terminating line feed) the log's last record.
pub proof fn lemma_last_record_of_append(prior: Seq<u8>, fields: Seq<Seq<u8>>)
    requires
        wf_log(prior),
    ensures
        wf_log(prior + encode_row_spec(fields)),
        last_record(prior + encode_row_spec(fields)) == Some(joined_fields(fields)),
{
    let joined = joined_fields(fields);
    let full = prior + encode_row_spec(fields);
    let base = prior + joined;
    lemma_joined_fields_even(fields);
    lemma_joined_fields_lf(fields);
    lemma_quote_count_concat(prior, joined);
    lemma_quote_count_concat(base, seq![LF]);
    lemma_quote_count_single(LF);
    assert(full =~= base + seq![LF]);
    assert(full.last() == LF);
    assert(quote_count(full) % 2 == 0);
    assert(full.take(full.len() - 1) =~= base);
    assert(is_boundary(full, full.len() - 1));
    assert(last_start(full) == full.len());
    assert forall|j: int| prior.len() <= j < base.len() implies !is_boundary(base, j) by {
        let m = j - prior.len();
        assert(base[j] == joined[m]);
        if base[j] == LF {
            assert(base.take(j) =~= prior + joined.take(m));
            lemma_quote_count_concat(prior, joined.take(m));
        }
    }
    if prior.len() > 0 {
        assert(base[prior.len() - 1] == prior.last());
        assert(prior.last() == LF);
        assert(base.take(prior.len() - 1) =~= prior.drop_last());
        assert(quote_count(prior) == quote_count(prior.drop_last()));
        assert(is_boundary(base, prior.len() - 1));
    }
    lemma_last_start_from(base, prior.len() as int);
    assert(full.drop_last() =~= base);
    assert(last_record(full) == Some(full.subrange(prior.len() as int, full.len() - 1)));
    assert(full.subrange(prior.len() as int, full.len() - 1) =~= joined);
}

/// A joined record starts with its first field's encoding, followed by a
/// comma when more fields follow.
proof fn lemma_joined_head(fields: Seq<Seq<u8>>)
    requires
        fields.len() >= 1,
    ensures
        joined_fields(fields).len() >= encode_field_spec(fields[0]).len(),
        joined_fields(fields).take(encode_field_spec(fields[0]).len() as int) == encode_field_spec(
            fields[0],
        ),
        joined_fields(fields).len() > encode_field_spec(fields[0]).len() ==> joined_fields(
            fields,
        )[encode_field_spec(fields[0]).len() as int] == COMMA,
    decreases fields.len(),
{
    let enc0 = encode_field_spec(fields[0]);
    if fields.len() == 1 {
        assert(joined_fields(fields) == enc0);
        assert(joined_fields(fields).take(enc0.len() as int) =~= enc0);
    } else {
        lemma_joined_head(fields.drop_last());
        assert(fields.drop_last()[0] == fields[0]);
        let head = joined_fields(fields.drop_last());
        let whole = joined_fields(fields);
        assert(whole == head + seq![COMMA] + encode_field_spec(fields.last()));
        assert(whole.take(enc0.len() as int) =~= head.take(enc0.len() as int));
        if head.len() == enc0.len() {
            assert(whole[enc0.len() as int] == COMMA);
        } else {
            assert(whole[enc0.len() as int] == head[enc0.len() as int]);
        }
    }
}

/// The first field of a joined record reads back exactly, provided it is one
/// that is written bare.
pub proof fn lemma_first_field_of_joined(fields: Seq<Seq<u8>>)
    requires
        fields.len() >= 1,
        !needs_quoting(fields[0]),
    ensures
        first_field(joined_fields(fields)) == fields[0],
{
    let f0 = fields[0];
    let rec = joined_fields(fields);
    lemma_joined_head(fields);
    assert(encode_field_spec(f0) == f0);
    if rec.len() > 0 {
        if f0.len() > 0 {
            assert(rec[0] == rec.take(f0.len() as int)[0]);
            assert(rec[0] == f0[0]);
            assert(!is_special(f0[0]));
        } else {
            assert(rec[0] == COMMA);
        }
        assert(rec[0] != QUOTE);
    }
    lemma_first_comma_char(rec);
    assert forall|j: int| 0 <= j < f0.len() implies rec[j] != COMMA by {
        assert(rec[j] == rec.take(f0.len() as int)[j]);
        assert(rec[j] == f0[j]);
        assert(!is_special(f0[j]));
    }
    let fc = first_comma(rec);
    if fc < f0.len() {
        assert(rec[fc] == COMMA);
        assert(false);
    }
    if fc > f0.len() {
        assert(rec.len() > f0.len());
        assert(rec[f0.len() as int] == COMMA);
        assert(false);
    }
    assert(rec.take(fc) == f0);
}

/// Copies `s[a..b]`.
fn copy_range(s: &Vec<u8>, a: usize, b: usize) -> (r: Vec<u8>)
    requires
        a <= b <= s@.len(),
    ensures
        r@ == s@.subrange(a as int, b as int),
{
    let mut r: Vec<u8> = Vec::new();
    let mut i: usize = a;
    while i < b
        invariant
            a <= i <= b <= s@.len(),
            r@ =~= s@.subrange(a as int, i as int),
        decreases b - i,
    {
        r.push(s[i]);
        proof {
            assert(r@ =~= s@.subrange(a as int, i + 1));
        }
        i = i + 1;
    }
    r
}

/// Reads the last record of a log, or nothing when the log is empty.
pub fn last_record_of(s: &Vec<u8>) -> (r: Option<Vec<u8>>)
    ensures
        match r {
            Some(v) => last_record(s@) == Some(v@),
            None => s@.len() == 0,
        },
{
    let n: usize = s.len();
    let mut i: usize = 0;
    let mut quotes_even: bool = true;
    let mut cur: usize = 0;
    let mut prev: usize = 0;
    while i < n
        invariant
            0 <= i <= n == s@.len(),
            quotes_even == (quote_count(s@.take(i as int)) % 2 == 0),
            cur == last_start(s@.take(i as int)),
            cur <= i,
            i >= 1 ==> prev == last_start(s@.take(i - 1)) && prev <= i - 1,
            i == 0 ==> prev == 0,
        decreases n - i,
    {
        let b: u8 = s[i];
        prev = cur;
        proof {
            let t = s@.take(i + 1);
            assert(t.drop_last() =~= s@.take(i as int));
            assert(t.last() == s@[i as int]);
            assert(is_boundary(t, i as int) == (b == LF && quotes_even));
            lemma_last_start_char(s@.take(i as int));
        }
        if b == LF && quotes_even {
            cur = i + 1;
        }
        if b == QUOTE {
            quotes_even = !quotes_even;
        }
        i = i + 1;
    }
    if n == 0 {
        return None;
    }
    proof {
        assert(s@.take(n as int) =~= s@);
        assert(s@.take(n - 1) =~= s@.drop_last());
        lemma_last_start_char(s@);
        lemma_last_start_char(s@.drop_last());
    }
    if cur < n {
        Some(copy_range(s, cur, n))
    } else {
        Some(copy_range(s, prev, n - 1))
    }
}

/// Reads the first field of a record.
pub fn first_field_of(rec: &Vec<u8>) -> (r: Vec<u8>)
    ensures
        r@ == first_field(rec@),
{
    let mut out: Vec<u8> = Vec::new();
    if rec.len() > 0 && rec[0] == QUOTE {
        let mut i: usize = 1;
        while i < rec.len()
            invariant
                1 <= i <= rec@.len(),
                rec@.len() > 0 && rec@[0] == QUOTE,
                unescape_quoted(rec@.skip(1)) == out@ + unescape_quoted(rec@.skip(i as int)),
            decreases rec@.len() - i,
        {
            let b: u8 = rec[i];
            proof {
                let t = rec@.skip(i as int);
                assert(t.len() == rec@.len() - i);
                assert(t[0] == rec@[i as int]);
                if i + 1 < rec@.len() {
                    assert(t[1] == rec@[i + 1]);
                }
                assert(t.skip(1) =~= rec@.skip(i + 1));
                if i + 2 <= rec@.len() {
                    assert(t.skip(2) =~= rec@.skip(i + 2));
                }
            }
            if b == QUOTE {
                if i + 1 < rec.len() && rec[i + 1] == QUOTE {
                    out.push(QUOTE);
                    proof {
                        assert(out@ =~= out@.drop_last() + seq![QUOTE]);
                        assert(out@.drop_last() + (seq![QUOTE] + unescape_quoted(
                            rec@.skip(i + 2),
                        )) =~= out@ + unescape_quoted(rec@.skip(i + 2)));
                    }
                    i = i + 2;
                } else {
                    proof {
                        assert(unescape_quoted(rec@.skip(i as int)) =~= Seq::<u8>::empty());
                        assert(out@ + Seq::<u8>::empty() =~= out@);
                    }
                    return out;
                }
            } else {
                out.push(b);
                proof {
                    assert(out@ =~= out@.drop_last() + seq![b]);
                    assert(out@.drop_last() + (seq![b] + unescape_quoted(rec@.skip(i + 1))) =~= out@
                        + unescape_quoted(rec@.skip(i + 1)));
                }
                i = i + 1;
            }
        }
        proof {
            assert(rec@.skip(i as int) =~= Seq::<u8>::empty());
            assert(out@ + Seq::<u8>::empty() =~= out@);
        }
        out
    } else {
        let mut i: usize = 0;
        while i < rec.len()
            invariant
                0 <= i <= rec@.len(),
                !(rec@.len() > 0 && rec@[0] == QUOTE),
                forall|j: int| 0 <= j < i ==> rec@[j] != COMMA,
                out@ =~= rec@.take(i as int),
            decreases rec@.len() - i,
        {
            let b: u8 = rec[i];
            if b == COMMA {
                proof {
                    lemma_first_comma_char(rec@);
                    assert(first_comma(rec@) == i);
                }
                return out;
            }
            out.push(b);
            i = i + 1;
        }
        proof {
            lemma_first_comma_char(rec@);
            assert(first_comma(rec@) == rec@.len());
            assert(out@ =~= rec@.take(first_comma(rec@)));
        }
        out
    }
}

} // verus!

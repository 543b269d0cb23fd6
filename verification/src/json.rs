//! The trace file's JSON framing, written by the library itself: a
//! self-delimiting stream of values (strings and arrays), one value
//! for the metadata header and one per drained batch, with no
//! separators. A parser for the same grammar is given at the
//! specification level, and parsing is proved to invert encoding, so a
//! reader that splits the stream this way recovers exactly what the
//! sink wrote.

use vstd::prelude::*;

use crate::recovery::{Event, EventChunk, EventModel, Metadata, TaskPath, TaskResolveMaps,
    TracePacket, TraceData, event_model};
use crate::text::{dec_digits, digit_char, u64_to_string};
use vstd::string::StrSliceExecFns;
use vstd::string::StringExecFns;

verus! {

broadcast use
    vstd::seq::axiom_seq_index_decreases,
    vstd::seq::axiom_seq_subrange_decreases,
;

/// A JSON value of the trace format: every scalar is carried as a
/// string, every structure as an array.
pub enum JsonVal {
    Str(Seq<char>),
    Arr(Seq<JsonVal>),
}

/// Strings carry no quote and no backslash, so they need no escaping;
/// every name here is an identifier, a digit string or a timestamp,
/// which never hold either.
pub open spec fn json_wf(v: JsonVal) -> bool
    decreases v,
{
    match v {
        JsonVal::Str(s) => forall|k: int| 0 <= k < s.len() ==> s[k] != '"' && s[k] != '\\',
        JsonVal::Arr(es) => forall|k: int| 0 <= k < es.len() ==> json_wf(#[trigger] es[k]),
    }
}

pub open spec fn enc_str(s: Seq<char>) -> Seq<char> {
    seq!['"'] + s + seq!['"']
}

/// The encoding of one value.
pub open spec fn enc_val(v: JsonVal) -> Seq<char>
    decreases v,
{
    match v {
        JsonVal::Str(s) => enc_str(s),
        JsonVal::Arr(es) => seq!['['] + enc_elems(es) + seq![']'],
    }
}

/// The encoding of an array's elements, comma-separated.
pub open spec fn enc_elems(es: Seq<JsonVal>) -> Seq<char>
    decreases es,
{
    if es.len() == 0 {
        Seq::empty()
    } else if es.len() == 1 {
        enc_val(es[0])
    } else {
        enc_val(es[0]) + seq![','] + enc_elems(es.subrange(1, es.len() as int))
    }
}

/// The stream a trace file holds: the values back to back.
pub open spec fn enc_stream(vs: Seq<JsonVal>) -> Seq<char>
    decreases vs,
{
    if vs.len() == 0 {
        Seq::empty()
    } else {
        enc_val(vs[0]) + enc_stream(vs.subrange(1, vs.len() as int))
    }
}

/// The position of the next quote at or after `j`.
pub open spec fn find_quote(s: Seq<char>, j: int) -> Option<int>
    decreases s.len() - j,
{
    if j < 0 || j >= s.len() {
        None
    } else if s[j] == '"' {
        Some(j)
    } else {
        find_quote(s, j + 1)
    }
}

/// Parses one value starting at `i`: a quoted string or an array.
pub open spec fn parse_val(s: Seq<char>, i: int) -> Option<(JsonVal, int)>
    decreases s.len() - i, 0int,
{
    if i < 0 || i >= s.len() {
        None
    } else if s[i] == '"' {
        match find_quote(s, i + 1) {
            Some(j) => Some((JsonVal::Str(s.subrange(i + 1, j)), j + 1)),
            None => None,
        }
    } else if s[i] == '[' {
        if i + 1 < s.len() && s[i + 1] == ']' {
            Some((JsonVal::Arr(Seq::empty()), i + 2))
        } else {
            match parse_elems(s, i + 1) {
                Some((es, j)) => if j < s.len() && s[j] == ']' {
                    Some((JsonVal::Arr(es), j + 1))
                } else {
                    None
                },
                None => None,
            }
        }
    } else {
        None
    }
}

/// Parses comma-separated values starting at `i`, as many as commas
/// continue them.
pub open spec fn parse_elems(s: Seq<char>, i: int) -> Option<(Seq<JsonVal>, int)>
    decreases s.len() - i, 1int,
{
    match parse_val(s, i) {
        Some((v, j)) => if j <= i {
            None
        } else if j < s.len() && s[j] == ',' {
            match parse_elems(s, j + 1) {
                Some((es, k)) => Some((seq![v] + es, k)),
                None => None,
            }
        } else {
            Some((seq![v], j))
        },
        None => None,
    }
}

/// Splits a whole stream into the values it concatenates.
pub open spec fn parse_stream(s: Seq<char>, i: int) -> Option<Seq<JsonVal>>
    decreases s.len() - i,
{
    if i == s.len() {
        Some(Seq::empty())
    } else {
        match parse_val(s, i) {
            Some((v, j)) => if j <= i || j > s.len() {
                None
            } else {
                match parse_stream(s, j) {
                    Some(vs) => Some(seq![v] + vs),
                    None => None,
                }
            },
            None => None,
        }
    }
}

/// Every encoding is at least its two delimiters long.
pub proof fn lemma_enc_val_len(v: JsonVal)
    ensures
        enc_val(v).len() >= 2,
{
    match v {
        JsonVal::Str(s) => {},
        JsonVal::Arr(es) => {},
    }
}

/// A quote scan lands on the first quote.
pub proof fn lemma_find_quote(s: Seq<char>, a: int, b: int)
    requires
        0 <= a <= b < s.len(),
        forall|k: int| a <= k < b ==> s[k] != '"',
        s[b] == '"',
    ensures
        find_quote(s, a) == Some(b),
    decreases b - a,
{
    if a < b {
        lemma_find_quote(s, a + 1, b);
    }
}

/// Parsing inverts encoding: a well-formed value's encoding, laid
/// anywhere in a stream, parses back to that value and ends exactly
/// where the encoding ends.
pub proof fn lemma_parse_enc_val(s: Seq<char>, i: int, v: JsonVal)
    requires
        json_wf(v),
        0 <= i,
        i + enc_val(v).len() <= s.len(),
        s.subrange(i, i + enc_val(v).len() as int) == enc_val(v),
    ensures
        parse_val(s, i) == Some((v, i + enc_val(v).len())),
    decreases v, 0int,
{
    let e = enc_val(v);
    let n = e.len() as int;
    assert(forall|m: int| 0 <= m < n ==> s[i + m] == e[m]);
    assert(s[i] == e[0]);
    match v {
        JsonVal::Str(t) => {
            assert(e[0] == '"');
            assert(e[n - 1] == '"');
            assert(s[i + n - 1] == '"');
            assert(forall|k: int| 0 <= k < t.len() ==> e[1 + k] == t[k]);
            assert forall|k: int| i + 1 <= k < i + n - 1 implies s[k] != '"' by {
                assert(s[k] == e[k - i]);
                assert(e[k - i] == t[k - i - 1]);
            }
            lemma_find_quote(s, i + 1, i + n - 1);
            assert(s.subrange(i + 1, i + n - 1) =~= t);
            assert(find_quote(s, i + 1) == Some(i + n - 1));
            assert(JsonVal::Str(s.subrange(i + 1, i + n - 1)) == v);
            assert(parse_val(s, i) == Some((v, i + n)));
        },
        JsonVal::Arr(es) => {
            assert(e[0] == '[');
            assert(e[n - 1] == ']');
            assert(s[i] == '[');
            assert(s[i + n - 1] == ']');
            if es.len() == 0 {
                assert(n == 2);
                assert(s[i + 1] == ']');
                assert(es =~= Seq::<JsonVal>::empty());
                assert(parse_val(s, i) == Some((v, i + n)));
            } else {
                let inner = enc_elems(es);
                assert(e =~= seq!['['] + inner + seq![']']);
                assert(forall|k: int| 0 <= k < inner.len() ==> e[1 + k] == inner[k]);
                assert(s.subrange(i + 1, i + 1 + inner.len() as int) =~= inner);
                lemma_enc_val_len(es[0]);
                assert(inner.len() >= 2);
                assert(s[i + 1] == inner[0]);
                assert(inner[0] == enc_val(es[0])[0]);
                lemma_enc_elems_first_char(es);
                assert(s[i + 1] != ']');
                lemma_parse_enc_elems(s, i + 1, es);
                assert(s[i + 1 + inner.len() as int] == ']');
                assert(parse_elems(s, i + 1) == Some((es, i + 1 + inner.len())));
                assert(parse_val(s, i) == Some((v, i + n)));
            }
        },
    }
    assert(parse_val(s, i) == Some((v, i + enc_val(v).len())));
}

/// The first character of encoded elements is a quote or a bracket.
pub proof fn lemma_enc_elems_first_char(es: Seq<JsonVal>)
    requires
        es.len() >= 1,
    ensures
        enc_elems(es)[0] == enc_val(es[0])[0],
        enc_val(es[0])[0] == '"' || enc_val(es[0])[0] == '[',
    decreases es,
{
    match es[0] {
        JsonVal::Str(t) => {},
        JsonVal::Arr(inner) => {},
    }
}

/// Parsing inverts encoding for an array's elements, provided the
/// character after them is the closing bracket, which stops the scan.
pub proof fn lemma_parse_enc_elems(s: Seq<char>, i: int, es: Seq<JsonVal>)
    requires
        es.len() >= 1,
        forall|k: int| 0 <= k < es.len() ==> json_wf(#[trigger] es[k]),
        0 <= i,
        i + enc_elems(es).len() < s.len(),
        s.subrange(i, i + enc_elems(es).len() as int) == enc_elems(es),
        s[i + enc_elems(es).len() as int] == ']',
    ensures
        parse_elems(s, i) == Some((es, i + enc_elems(es).len())),
    decreases es, 1int,
{
    let e = enc_elems(es);
    let n = e.len() as int;
    let e0 = enc_val(es[0]);
    let n0 = e0.len() as int;
    lemma_enc_val_len(es[0]);
    if es.len() == 1 {
        assert(e =~= e0);
        assert(s.subrange(i, i + n0) =~= e0);
        lemma_parse_enc_val(s, i, es[0]);
        assert(s[i + n0] == ']');
        assert(seq![es[0]] =~= es);
    } else {
        let rest = es.subrange(1, es.len() as int);
        assert(e =~= e0 + seq![','] + enc_elems(rest));
        assert(forall|k: int| 0 <= k < n0 ==> e[k] == e0[k]);
        assert(s.subrange(i, i + n0) =~= e0);
        lemma_parse_enc_val(s, i, es[0]);
        assert(e[n0] == ',');
        assert(s[i + n0] == ',');
        assert(forall|k: int| 0 <= k < enc_elems(rest).len() ==> e[n0 + 1 + k] == enc_elems(
            rest,
        )[k]);
        assert(s.subrange(i + n0 + 1, i + n0 + 1 + enc_elems(rest).len() as int) =~= enc_elems(
            rest,
        ));
        assert(s[i + n0 + 1 + enc_elems(rest).len() as int] == ']');
        lemma_parse_enc_elems(s, i + n0 + 1, rest);
        assert(seq![es[0]] + rest =~= es);
    }
}

/// Splitting the written stream recovers exactly the written values:
/// the header and each drained batch, in order, nothing else.
pub proof fn lemma_parse_enc_stream(s: Seq<char>, i: int, vs: Seq<JsonVal>)
    requires
        forall|k: int| 0 <= k < vs.len() ==> json_wf(#[trigger] vs[k]),
        0 <= i <= s.len(),
        s.subrange(i, s.len() as int) == enc_stream(vs),
    ensures
        parse_stream(s, i) == Some(vs),
    decreases vs,
{
    if vs.len() == 0 {
        assert(i == s.len());
    } else {
        let e0 = enc_val(vs[0]);
        let n0 = e0.len() as int;
        let rest = vs.subrange(1, vs.len() as int);
        assert(enc_stream(vs) =~= e0 + enc_stream(rest));
        lemma_enc_val_len(vs[0]);
        assert(forall|k: int| 0 <= k < enc_stream(vs).len() ==> s[i + k] == enc_stream(vs)[k]);
        assert(s.subrange(i, i + n0) =~= e0);
        lemma_parse_enc_val(s, i, vs[0]);
        assert(s.len() - i == enc_stream(vs).len());
        assert forall|m: int| 0 <= m < enc_stream(rest).len() implies s.subrange(
            i + n0,
            s.len() as int,
        )[m] == enc_stream(rest)[m] by {
            assert(s.subrange(i + n0, s.len() as int)[m] == s[i + n0 + m]);
            assert(s[i + n0 + m] == enc_stream(vs)[n0 + m]);
            assert(enc_stream(vs)[n0 + m] == enc_stream(rest)[m]);
        }
        assert(s.subrange(i + n0, s.len() as int) =~= enc_stream(rest));
        lemma_parse_enc_stream(s, i + n0, rest);
        assert(seq![vs[0]] + rest =~= vs);
    }
}

/// The round trip itself: encode a sequence of values, split the byte
/// stream back, and exactly the original values come out.
pub proof fn lemma_stream_round_trip(vs: Seq<JsonVal>)
    requires
        forall|k: int| 0 <= k < vs.len() ==> json_wf(#[trigger] vs[k]),
    ensures
        parse_stream(enc_stream(vs), 0) == Some(vs),
{
    let s = enc_stream(vs);
    assert(s.subrange(0, s.len() as int) =~= s);
    lemma_parse_enc_stream(s, 0, vs);
}

/// Decimal digit sequences never hold a quote or a backslash.
pub proof fn lemma_dec_digits_wf(n: nat)
    ensures
        forall|k: int| 0 <= k < dec_digits(n).len() ==> dec_digits(n)[k] != '"' && dec_digits(
            n,
        )[k] != '\\',
    decreases n,
{
    if n < 10 {
        assert(dec_digits(n) =~= seq![digit_char(n)]);
        assert(digit_char(n) != '"' && digit_char(n) != '\\');
    } else {
        lemma_dec_digits_wf(n / 10);
        assert(dec_digits(n) == dec_digits(n / 10).push(digit_char(n % 10)));
        assert(digit_char(n % 10) != '"' && digit_char(n % 10) != '\\');
        assert forall|k: int| 0 <= k < dec_digits(n).len() implies dec_digits(n)[k] != '"'
            && dec_digits(n)[k] != '\\' by {
            if k < dec_digits(n / 10).len() {
                assert(dec_digits(n)[k] == dec_digits(n / 10)[k]);
            } else {
                assert(dec_digits(n)[k] == digit_char(n % 10));
            }
        }
    }
}

/// Text that needs no escaping: identifiers, digit strings and
/// timestamps hold neither quote nor backslash.
pub open spec fn text_wf(s: Seq<char>) -> bool {
    forall|k: int| 0 <= k < s.len() ==> s[k] != '"' && s[k] != '\\'
}

pub open spec fn path_wf(p: Seq<Seq<char>>) -> bool {
    forall|k: int| 0 <= k < p.len() ==> text_wf(#[trigger] p[k])
}

pub open spec fn jstr(s: Seq<char>) -> JsonVal {
    JsonVal::Str(s)
}

pub open spec fn jnum(n: nat) -> JsonVal {
    JsonVal::Str(dec_digits(n))
}

pub open spec fn json_of_path(p: Seq<Seq<char>>) -> JsonVal {
    JsonVal::Arr(Seq::new(p.len(), |k: int| JsonVal::Str(p[k])))
}

pub open spec fn json_of_exceptions(v: Seq<(String, TaskPath)>) -> JsonVal {
    JsonVal::Arr(
        Seq::new(v.len(), |k: int| JsonVal::Arr(seq![jstr(v[k].0@), json_of_path(v[k].1@)])),
    )
}

pub open spec fn json_of_interrupts(v: Seq<(u8, (TaskPath, String))>) -> JsonVal {
    JsonVal::Arr(
        Seq::new(
            v.len(),
            |k: int|
                JsonVal::Arr(
                    seq![jnum(v[k].0 as nat), json_of_path(v[k].1.0@), jstr(v[k].1.1@)],
                ),
        ),
    )
}

pub open spec fn json_of_sw_assocs(v: Seq<(u32, TaskPath)>) -> JsonVal {
    JsonVal::Arr(
        Seq::new(
            v.len(),
            |k: int| JsonVal::Arr(seq![jnum(v[k].0 as nat), json_of_path(v[k].1@)]),
        ),
    )
}

pub open spec fn json_of_maps(m: TaskResolveMaps) -> JsonVal {
    JsonVal::Arr(
        seq![
            json_of_exceptions(m.exceptions@),
            json_of_interrupts(m.interrupts@),
            json_of_sw_assocs(m.sw_assocs@),
        ],
    )
}

/// The header value: the three maps, the reset timestamp and the trace
/// clock frequency.
pub open spec fn json_of_metadata(m: Metadata) -> JsonVal {
    JsonVal::Arr(
        seq![json_of_maps(m.maps), jstr(m.reset_timestamp@), jnum(m.trace_clock_freq as nat)],
    )
}

pub open spec fn json_of_packet(p: TracePacket) -> JsonVal {
    match p {
        TracePacket::InternalTask { name } => JsonVal::Arr(seq![jstr("exception"@), jstr(name@)]),
        TracePacket::ExternalTask { nr } => JsonVal::Arr(
            seq![jstr("interrupt"@), jnum(nr as nat)],
        ),
        TracePacket::SoftwareTask { id } => JsonVal::Arr(seq![jstr("task"@), jnum(id as nat)]),
        TracePacket::Unknown { desc } => JsonVal::Arr(seq![jstr("unknown"@), jstr(desc@)]),
    }
}

/// One drained batch: its timestamp and its packets.
pub open spec fn json_of_trace_data(d: TraceData) -> JsonVal {
    JsonVal::Arr(
        seq![
            jnum(d.ticks as nat),
            JsonVal::Arr(Seq::new(d.packets@.len(), |k: int| json_of_packet(d.packets@[k]))),
        ],
    )
}

pub open spec fn json_of_event_model(e: EventModel) -> JsonVal {
    match e {
        EventModel::Task(path) => JsonVal::Arr(seq![jstr("task"@), json_of_path(path)]),
        EventModel::Unknown(desc) => JsonVal::Arr(seq![jstr("unknown"@), jstr(desc)]),
    }
}

pub open spec fn json_of_event(e: Event) -> JsonVal {
    json_of_event_model(event_model(e))
}

/// One resolved batch, as the live consumer receives it.
pub open spec fn json_of_event_chunk(c: EventChunk) -> JsonVal {
    JsonVal::Arr(
        seq![
            jnum(c.ticks as nat),
            JsonVal::Arr(Seq::new(c.events@.len(), |k: int| json_of_event(c.events@[k]))),
        ],
    )
}

/// Quotes a piece of text.
pub fn encode_text(s: &str) -> (r: String)
    ensures
        r@ == enc_str(s@),
        r@ == enc_val(jstr(s@)),
{
    let mut out = String::from_str("\"");
    out.append(s);
    out.append("\"");
    proof {
        reveal_strlit("\"");
        assert(out@ =~= enc_str(s@));
    }
    out
}

/// Quotes a number's decimal digits.
pub fn encode_number(n: u64) -> (r: String)
    ensures
        r@ == enc_val(jnum(n as nat)),
{
    let digits = u64_to_string(n);
    encode_text(digits.as_str())
}

/// Appends a value's text to an array under construction, with its
/// separating comma, and keeps the array's encoding exact.
fn push_elem(out: &mut String, elem: &str, first: bool, Ghost(es): Ghost<Seq<JsonVal>>, Ghost(
    e,
): Ghost<JsonVal>)
    requires
        old(out)@ == seq!['['] + enc_elems(es),
        elem@ == enc_val(e),
        first <==> es.len() == 0,
    ensures
        final(out)@ == seq!['['] + enc_elems(es.push(e)),
{
    if !first {
        out.append(",");
    }
    out.append(elem);
    proof {
        reveal_strlit(",");
        lemma_enc_elems_snoc(es, e);
        assert(out@ =~= seq!['['] + enc_elems(es.push(e)));
    }
}

/// Appending an element extends the encoded elements by a comma and
/// the element's text.
pub proof fn lemma_enc_elems_snoc(es: Seq<JsonVal>, e: JsonVal)
    ensures
        enc_elems(es.push(e)) == if es.len() == 0 {
            enc_val(e)
        } else {
            enc_elems(es) + seq![','] + enc_val(e)
        },
    decreases es.len(),
{
    let t = es.push(e);
    if es.len() == 0 {
        assert(t.len() == 1);
        assert(t[0] == e);
        assert(enc_elems(t) =~= enc_val(e));
    } else {
        lemma_enc_elems_snoc(es.subrange(1, es.len() as int), e);
        assert(t.subrange(1, t.len() as int) =~= es.subrange(1, es.len() as int).push(e));
        assert(t[0] == es[0]);
        if es.len() == 1 {
            assert(es.subrange(1, 1) =~= Seq::<JsonVal>::empty());
            assert(enc_elems(es) =~= enc_val(es[0]));
            assert(enc_elems(t) =~= enc_elems(es) + seq![','] + enc_val(e));
        } else {
            assert(enc_elems(t) =~= enc_elems(es) + seq![','] + enc_val(e));
        }
    }
}

/// Encodes a task path as an array of its names.
pub fn encode_path(p: &TaskPath) -> (r: String)
    ensures
        r@ == enc_val(json_of_path(p@)),
{
    let ghost children = Seq::new(p@.len(), |k: int| JsonVal::Str(p@[k]));
    let mut out = String::from_str("[");
    proof {
        reveal_strlit("[");
        assert(out@ =~= seq!['['] + enc_elems(children.subrange(0, 0)));
    }
    let mut k: usize = 0;
    while k < p.segments.len()
        invariant
            k <= p.segments@.len(),
            children == Seq::new(p@.len(), |k: int| JsonVal::Str(p@[k])),
            children.len() == p.segments@.len(),
            out@ == seq!['['] + enc_elems(children.subrange(0, k as int)),
        decreases p.segments@.len() - k,
    {
        let piece = encode_text(p.segments[k].as_str());
        push_elem(
            &mut out,
            piece.as_str(),
            k == 0,
            Ghost(children.subrange(0, k as int)),
            Ghost(children[k as int]),
        );
        proof {
            assert(children.subrange(0, k as int).push(children[k as int]) =~= children.subrange(
                0,
                k as int + 1,
            ));
        }
        k += 1;
    }
    out.append("]");
    proof {
        reveal_strlit("]");
        assert(children.subrange(0, children.len() as int) =~= children);
        assert(out@ =~= enc_val(json_of_path(p@)));
    }
    out
}


/// Encodes one core-exception binding.
pub fn encode_exc_entry(name: &String, path: &TaskPath) -> (r: String)
    ensures
        r@ == enc_val(JsonVal::Arr(seq![jstr(name@), json_of_path(path@)])),
{
    let ghost es0 = Seq::<JsonVal>::empty();
    let mut out = String::from_str("[");
    proof {
        reveal_strlit("[");
        assert(es0.subrange(0, 0) =~= es0);
        assert(out@ =~= seq!['['] + enc_elems(es0));
    }
    let p1 = encode_text(name.as_str());
    push_elem(&mut out, p1.as_str(), true, Ghost(es0), Ghost(jstr(name@)));
    let p2 = encode_path(path);
    push_elem(&mut out, p2.as_str(), false, Ghost(es0.push(jstr(name@))), Ghost(json_of_path(path@)));
    out.append("]");
    proof {
        reveal_strlit("]");
        assert(es0.push(jstr(name@)).push(json_of_path(path@)) =~= seq![jstr(name@), json_of_path(path@)]);
        assert(out@ =~= enc_val(JsonVal::Arr(seq![jstr(name@), json_of_path(path@)])));
    }
    out
}


/// Encodes the core-exception map.
pub fn encode_exceptions(v: &Vec<(String, TaskPath)>) -> (r: String)
    ensures
        r@ == enc_val(json_of_exceptions(v@)),
{
    let ghost children = Seq::new(v@.len(), |k: int| JsonVal::Arr(seq![jstr(v@[k].0@), json_of_path(v@[k].1@)]));
    let mut out = String::from_str("[");
    proof {
        reveal_strlit("[");
        assert(children.subrange(0, 0) =~= Seq::<JsonVal>::empty());
        assert(out@ =~= seq!['['] + enc_elems(children.subrange(0, 0)));
    }
    let mut k: usize = 0;
    while k < v.len()
        invariant
            k <= v@.len(),
            children == Seq::new(v@.len(), |k: int| JsonVal::Arr(seq![jstr(v@[k].0@), json_of_path(v@[k].1@)])),
            children.len() == v@.len(),
            out@ == seq!['['] + enc_elems(children.subrange(0, k as int)),
        decreases v@.len() - k,
    {
        let piece = encode_exc_entry(&v[k].0, &v[k].1);
        push_elem(
            &mut out,
            piece.as_str(),
            k == 0,
            Ghost(children.subrange(0, k as int)),
            Ghost(JsonVal::Arr(seq![jstr(v@[k as int].0@), json_of_path(v@[k as int].1@)])),
        );
        proof {
            assert(children[k as int] == JsonVal::Arr(seq![jstr(v@[k as int].0@), json_of_path(v@[k as int].1@)]));
            assert(children.subrange(0, k as int).push(children[k as int]) =~= children.subrange(
                0,
                k as int + 1,
            ));
        }
        k += 1;
    }
    out.append("]");
    proof {
        reveal_strlit("]");
        assert(children.subrange(0, children.len() as int) =~= children);
        assert(out@ =~= enc_val(json_of_exceptions(v@)));
    }
    out
}


/// Encodes one peripheral-interrupt binding.
pub fn encode_int_entry(nr: u8, path: &TaskPath, bind: &String) -> (r: String)
    ensures
        r@ == enc_val(
            JsonVal::Arr(seq![jnum(nr as nat), json_of_path(path@), jstr(bind@)]),
        ),
{
    let ghost es0 = Seq::<JsonVal>::empty();
    let mut out = String::from_str("[");
    proof {
        reveal_strlit("[");
        assert(es0.subrange(0, 0) =~= es0);
        assert(out@ =~= seq!['['] + enc_elems(es0));
    }
    let p1 = encode_number(nr as u64);
    push_elem(&mut out, p1.as_str(), true, Ghost(es0), Ghost(jnum(nr as nat)));
    let p2 = encode_path(path);
    push_elem(&mut out, p2.as_str(), false, Ghost(es0.push(jnum(nr as nat))), Ghost(
        json_of_path(path@),
    ));
    let p3 = encode_text(bind.as_str());
    push_elem(
        &mut out,
        p3.as_str(),
        false,
        Ghost(es0.push(jnum(nr as nat)).push(json_of_path(path@))),
        Ghost(jstr(bind@)),
    );
    out.append("]");
    proof {
        reveal_strlit("]");
        assert(es0.push(jnum(nr as nat)).push(json_of_path(path@)).push(jstr(bind@))
            =~= seq![jnum(nr as nat), json_of_path(path@), jstr(bind@)]);
        assert(out@ =~= enc_val(
            JsonVal::Arr(seq![jnum(nr as nat), json_of_path(path@), jstr(bind@)]),
        ));
    }
    out
}


/// Encodes the peripheral-interrupt map.
pub fn encode_interrupts(v: &Vec<(u8, (TaskPath, String))>) -> (r: String)
    ensures
        r@ == enc_val(json_of_interrupts(v@)),
{
    let ghost children = Seq::new(v@.len(), |k: int| JsonVal::Arr(seq![jnum(v@[k].0 as nat), json_of_path(v@[k].1.0@), jstr(v@[k].1.1@)]));
    let mut out = String::from_str("[");
    proof {
        reveal_strlit("[");
        assert(children.subrange(0, 0) =~= Seq::<JsonVal>::empty());
        assert(out@ =~= seq!['['] + enc_elems(children.subrange(0, 0)));
    }
    let mut k: usize = 0;
    while k < v.len()
        invariant
            k <= v@.len(),
            children == Seq::new(v@.len(), |k: int| JsonVal::Arr(seq![jnum(v@[k].0 as nat), json_of_path(v@[k].1.0@), jstr(v@[k].1.1@)])),
            children.len() == v@.len(),
            out@ == seq!['['] + enc_elems(children.subrange(0, k as int)),
        decreases v@.len() - k,
    {
        let piece = encode_int_entry(v[k].0, &v[k].1.0, &v[k].1.1);
        push_elem(
            &mut out,
            piece.as_str(),
            k == 0,
            Ghost(children.subrange(0, k as int)),
            Ghost(JsonVal::Arr(seq![jnum(v@[k as int].0 as nat), json_of_path(v@[k as int].1.0@), jstr(v@[k as int].1.1@)])),
        );
        proof {
            assert(children[k as int] == JsonVal::Arr(seq![jnum(v@[k as int].0 as nat), json_of_path(v@[k as int].1.0@), jstr(v@[k as int].1.1@)]));
            assert(children.subrange(0, k as int).push(children[k as int]) =~= children.subrange(
                0,
                k as int + 1,
            ));
        }
        k += 1;
    }
    out.append("]");
    proof {
        reveal_strlit("]");
        assert(children.subrange(0, children.len() as int) =~= children);
        assert(out@ =~= enc_val(json_of_interrupts(v@)));
    }
    out
}


/// Encodes one software-task assignment.
pub fn encode_sw_entry(id: u32, path: &TaskPath) -> (r: String)
    ensures
        r@ == enc_val(JsonVal::Arr(seq![jnum(id as nat), json_of_path(path@)])),
{
    let ghost es0 = Seq::<JsonVal>::empty();
    let mut out = String::from_str("[");
    proof {
        reveal_strlit("[");
        assert(es0.subrange(0, 0) =~= es0);
        assert(out@ =~= seq!['['] + enc_elems(es0));
    }
    let p1 = encode_number(id as u64);
    push_elem(&mut out, p1.as_str(), true, Ghost(es0), Ghost(jnum(id as nat)));
    let p2 = encode_path(path);
    push_elem(&mut out, p2.as_str(), false, Ghost(es0.push(jnum(id as nat))), Ghost(json_of_path(path@)));
    out.append("]");
    proof {
        reveal_strlit("]");
        assert(es0.push(jnum(id as nat)).push(json_of_path(path@)) =~= seq![jnum(id as nat), json_of_path(path@)]);
        assert(out@ =~= enc_val(JsonVal::Arr(seq![jnum(id as nat), json_of_path(path@)])));
    }
    out
}


/// Encodes the software-task map.
pub fn encode_sw_assocs(v: &Vec<(u32, TaskPath)>) -> (r: String)
    ensures
        r@ == enc_val(json_of_sw_assocs(v@)),
{
    let ghost children = Seq::new(v@.len(), |k: int| JsonVal::Arr(seq![jnum(v@[k].0 as nat), json_of_path(v@[k].1@)]));
    let mut out = String::from_str("[");
    proof {
        reveal_strlit("[");
        assert(children.subrange(0, 0) =~= Seq::<JsonVal>::empty());
        assert(out@ =~= seq!['['] + enc_elems(children.subrange(0, 0)));
    }
    let mut k: usize = 0;
    while k < v.len()
        invariant
            k <= v@.len(),
            children == Seq::new(v@.len(), |k: int| JsonVal::Arr(seq![jnum(v@[k].0 as nat), json_of_path(v@[k].1@)])),
            children.len() == v@.len(),
            out@ == seq!['['] + enc_elems(children.subrange(0, k as int)),
        decreases v@.len() - k,
    {
        let piece = encode_sw_entry(v[k].0, &v[k].1);
        push_elem(
            &mut out,
            piece.as_str(),
            k == 0,
            Ghost(children.subrange(0, k as int)),
            Ghost(JsonVal::Arr(seq![jnum(v@[k as int].0 as nat), json_of_path(v@[k as int].1@)])),
        );
        proof {
            assert(children[k as int] == JsonVal::Arr(seq![jnum(v@[k as int].0 as nat), json_of_path(v@[k as int].1@)]));
            assert(children.subrange(0, k as int).push(children[k as int]) =~= children.subrange(
                0,
                k as int + 1,
            ));
        }
        k += 1;
    }
    out.append("]");
    proof {
        reveal_strlit("]");
        assert(children.subrange(0, children.len() as int) =~= children);
        assert(out@ =~= enc_val(json_of_sw_assocs(v@)));
    }
    out
}


/// Encodes the three recovered maps.
pub fn encode_maps(m: &TaskResolveMaps) -> (r: String)
    ensures
        r@ == enc_val(json_of_maps(*m)),
{
    let ghost es0 = Seq::<JsonVal>::empty();
    let mut out = String::from_str("[");
    proof {
        reveal_strlit("[");
        assert(es0.subrange(0, 0) =~= es0);
        assert(out@ =~= seq!['['] + enc_elems(es0));
    }
    let p1 = encode_exceptions(&m.exceptions);
    push_elem(&mut out, p1.as_str(), true, Ghost(es0), Ghost(json_of_exceptions(m.exceptions@)));
    let p2 = encode_interrupts(&m.interrupts);
    push_elem(
        &mut out,
        p2.as_str(),
        false,
        Ghost(es0.push(json_of_exceptions(m.exceptions@))),
        Ghost(json_of_interrupts(m.interrupts@)),
    );
    let p3 = encode_sw_assocs(&m.sw_assocs);
    push_elem(
        &mut out,
        p3.as_str(),
        false,
        Ghost(es0.push(json_of_exceptions(m.exceptions@)).push(json_of_interrupts(m.interrupts@))),
        Ghost(json_of_sw_assocs(m.sw_assocs@)),
    );
    out.append("]");
    proof {
        reveal_strlit("]");
        assert(es0.push(json_of_exceptions(m.exceptions@)).push(
            json_of_interrupts(m.interrupts@),
        ).push(json_of_sw_assocs(m.sw_assocs@)) =~= seq![
            json_of_exceptions(m.exceptions@),
            json_of_interrupts(m.interrupts@),
            json_of_sw_assocs(m.sw_assocs@),
        ]);
        assert(out@ =~= enc_val(json_of_maps(*m)));
    }
    out
}

/// Encodes the session header that a trace file opens with.
pub fn encode_metadata(m: &Metadata) -> (r: String)
    ensures
        r@ == enc_val(json_of_metadata(*m)),
{
    let ghost es0 = Seq::<JsonVal>::empty();
    let mut out = String::from_str("[");
    proof {
        reveal_strlit("[");
        assert(es0.subrange(0, 0) =~= es0);
        assert(out@ =~= seq!['['] + enc_elems(es0));
    }
    let p1 = encode_maps(&m.maps);
    push_elem(&mut out, p1.as_str(), true, Ghost(es0), Ghost(json_of_maps(m.maps)));
    let p2 = encode_text(m.reset_timestamp.as_str());
    push_elem(&mut out, p2.as_str(), false, Ghost(es0.push(json_of_maps(m.maps))), Ghost(
        jstr(m.reset_timestamp@),
    ));
    let p3 = encode_number(m.trace_clock_freq);
    push_elem(
        &mut out,
        p3.as_str(),
        false,
        Ghost(es0.push(json_of_maps(m.maps)).push(jstr(m.reset_timestamp@))),
        Ghost(jnum(m.trace_clock_freq as nat)),
    );
    out.append("]");
    proof {
        reveal_strlit("]");
        assert(es0.push(json_of_maps(m.maps)).push(jstr(m.reset_timestamp@)).push(
            jnum(m.trace_clock_freq as nat),
        ) =~= seq![
            json_of_maps(m.maps),
            jstr(m.reset_timestamp@),
            jnum(m.trace_clock_freq as nat),
        ]);
        assert(out@ =~= enc_val(json_of_metadata(*m)));
    }
    out
}

/// Encodes one decoded packet with its kind tag.
pub fn encode_packet(p: &TracePacket) -> (r: String)
    ensures
        r@ == enc_val(json_of_packet(*p)),
{
    match p {
        TracePacket::InternalTask { name } => {
            let tag = encode_text("exception");
            let val = encode_text(name.as_str());
            encode_tagged(tag.as_str(), val.as_str(), Ghost(jstr("exception"@)), Ghost(
                jstr(name@),
            ))
        },
        TracePacket::ExternalTask { nr } => {
            let tag = encode_text("interrupt");
            let val = encode_number(*nr as u64);
            encode_tagged(tag.as_str(), val.as_str(), Ghost(jstr("interrupt"@)), Ghost(
                jnum(*nr as nat),
            ))
        },
        TracePacket::SoftwareTask { id } => {
            let tag = encode_text("task");
            let val = encode_number(*id as u64);
            encode_tagged(tag.as_str(), val.as_str(), Ghost(jstr("task"@)), Ghost(
                jnum(*id as nat),
            ))
        },
        TracePacket::Unknown { desc } => {
            let tag = encode_text("unknown");
            let val = encode_text(desc.as_str());
            encode_tagged(tag.as_str(), val.as_str(), Ghost(jstr("unknown"@)), Ghost(
                jstr(desc@),
            ))
        },
    }
}

/// Encodes a two-element array from the pieces' texts.
fn encode_tagged(first: &str, second: &str, Ghost(e1): Ghost<JsonVal>, Ghost(e2): Ghost<
    JsonVal,
>) -> (r: String)
    requires
        first@ == enc_val(e1),
        second@ == enc_val(e2),
    ensures
        r@ == enc_val(JsonVal::Arr(seq![e1, e2])),
{
    let ghost es0 = Seq::<JsonVal>::empty();
    let mut out = String::from_str("[");
    proof {
        reveal_strlit("[");
        assert(es0.subrange(0, 0) =~= es0);
        assert(out@ =~= seq!['['] + enc_elems(es0));
    }
    push_elem(&mut out, first, true, Ghost(es0), Ghost(e1));
    push_elem(&mut out, second, false, Ghost(es0.push(e1)), Ghost(e2));
    out.append("]");
    proof {
        reveal_strlit("]");
        assert(es0.push(e1).push(e2) =~= seq![e1, e2]);
        assert(out@ =~= enc_val(JsonVal::Arr(seq![e1, e2])));
    }
    out
}


/// Encodes a batch's packets.
pub fn encode_packets(v: &Vec<TracePacket>) -> (r: String)
    ensures
        r@ == enc_val(JsonVal::Arr(Seq::new(v@.len(), |k: int| json_of_packet(v@[k])))),
{
    let ghost children = Seq::new(v@.len(), |k: int| json_of_packet(v@[k]));
    let mut out = String::from_str("[");
    proof {
        reveal_strlit("[");
        assert(children.subrange(0, 0) =~= Seq::<JsonVal>::empty());
        assert(out@ =~= seq!['['] + enc_elems(children.subrange(0, 0)));
    }
    let mut k: usize = 0;
    while k < v.len()
        invariant
            k <= v@.len(),
            children == Seq::new(v@.len(), |k: int| json_of_packet(v@[k])),
            children.len() == v@.len(),
            out@ == seq!['['] + enc_elems(children.subrange(0, k as int)),
        decreases v@.len() - k,
    {
        let piece = encode_packet(&v[k]);
        push_elem(
            &mut out,
            piece.as_str(),
            k == 0,
            Ghost(children.subrange(0, k as int)),
            Ghost(json_of_packet(v@[k as int])),
        );
        proof {
            assert(children[k as int] == json_of_packet(v@[k as int]));
            assert(children.subrange(0, k as int).push(children[k as int]) =~= children.subrange(
                0,
                k as int + 1,
            ));
        }
        k += 1;
    }
    out.append("]");
    proof {
        reveal_strlit("]");
        assert(children.subrange(0, children.len() as int) =~= children);
        assert(out@ =~= enc_val(JsonVal::Arr(Seq::new(v@.len(), |k: int| json_of_packet(v@[k])))));
    }
    out
}


/// Encodes one drained batch, exactly as the file sink appends it.
pub fn encode_trace_data(d: &TraceData) -> (r: String)
    ensures
        r@ == enc_val(json_of_trace_data(*d)),
{
    let ticks = encode_number(d.ticks);
    let packets = encode_packets(&d.packets);
    encode_tagged(
        ticks.as_str(),
        packets.as_str(),
        Ghost(jnum(d.ticks as nat)),
        Ghost(JsonVal::Arr(Seq::new(d.packets@.len(), |k: int| json_of_packet(d.packets@[k])))),
    )
}

/// Encodes one resolved event with its kind tag.
pub fn encode_event(e: &Event) -> (r: String)
    ensures
        r@ == enc_val(json_of_event(*e)),
{
    match e {
        Event::Task { path } => {
            let tag = encode_text("task");
            let val = encode_path(path);
            encode_tagged(tag.as_str(), val.as_str(), Ghost(jstr("task"@)), Ghost(
                json_of_path(path@),
            ))
        },
        Event::Unknown { desc } => {
            let tag = encode_text("unknown");
            let val = encode_text(desc.as_str());
            encode_tagged(tag.as_str(), val.as_str(), Ghost(jstr("unknown"@)), Ghost(
                jstr(desc@),
            ))
        },
    }
}


/// Encodes a resolved batch's events.
pub fn encode_events(v: &Vec<Event>) -> (r: String)
    ensures
        r@ == enc_val(JsonVal::Arr(Seq::new(v@.len(), |k: int| json_of_event(v@[k])))),
{
    let ghost children = Seq::new(v@.len(), |k: int| json_of_event(v@[k]));
    let mut out = String::from_str("[");
    proof {
        reveal_strlit("[");
        assert(children.subrange(0, 0) =~= Seq::<JsonVal>::empty());
        assert(out@ =~= seq!['['] + enc_elems(children.subrange(0, 0)));
    }
    let mut k: usize = 0;
    while k < v.len()
        invariant
            k <= v@.len(),
            children == Seq::new(v@.len(), |k: int| json_of_event(v@[k])),
            children.len() == v@.len(),
            out@ == seq!['['] + enc_elems(children.subrange(0, k as int)),
        decreases v@.len() - k,
    {
        let piece = encode_event(&v[k]);
        push_elem(
            &mut out,
            piece.as_str(),
            k == 0,
            Ghost(children.subrange(0, k as int)),
            Ghost(json_of_event(v@[k as int])),
        );
        proof {
            assert(children[k as int] == json_of_event(v@[k as int]));
            assert(children.subrange(0, k as int).push(children[k as int]) =~= children.subrange(
                0,
                k as int + 1,
            ));
        }
        k += 1;
    }
    out.append("]");
    proof {
        reveal_strlit("]");
        assert(children.subrange(0, children.len() as int) =~= children);
        assert(out@ =~= enc_val(JsonVal::Arr(Seq::new(v@.len(), |k: int| json_of_event(v@[k])))));
    }
    out
}


/// Encodes one resolved batch, exactly as the live sink sends it.
pub fn encode_event_chunk(c: &EventChunk) -> (r: String)
    ensures
        r@ == enc_val(json_of_event_chunk(*c)),
{
    let ticks = encode_number(c.ticks);
    let events = encode_events(&c.events);
    encode_tagged(
        ticks.as_str(),
        events.as_str(),
        Ghost(jnum(c.ticks as nat)),
        Ghost(JsonVal::Arr(Seq::new(c.events@.len(), |k: int| json_of_event(c.events@[k])))),
    )
}


/// Appending a value extends the stream by its encoding.
pub proof fn lemma_enc_stream_snoc(vs: Seq<JsonVal>, v: JsonVal)
    ensures
        enc_stream(vs.push(v)) == enc_stream(vs) + enc_val(v),
    decreases vs.len(),
{
    let t = vs.push(v);
    if vs.len() == 0 {
        assert(t[0] == v);
        assert(t.subrange(1, 1) =~= Seq::<JsonVal>::empty());
        assert(enc_stream(Seq::<JsonVal>::empty()) == Seq::<char>::empty());
        assert(vs =~= Seq::<JsonVal>::empty());
        assert(enc_stream(t) =~= enc_stream(vs) + enc_val(v));
    } else {
        lemma_enc_stream_snoc(vs.subrange(1, vs.len() as int), v);
        assert(t.subrange(1, t.len() as int) =~= vs.subrange(1, vs.len() as int).push(v));
        assert(t[0] == vs[0]);
        assert(enc_stream(t) =~= enc_stream(vs) + enc_val(v));
    }
}

/// The elements of an array value.
pub open spec fn arr_elems(v: JsonVal) -> Seq<JsonVal> {
    match v {
        JsonVal::Arr(es) => es,
        JsonVal::Str(_) => Seq::empty(),
    }
}

/// What resolution never reads stays unconstrained; what it reads is
/// quote-free, so the header encodes without escapes.
pub open spec fn maps_text_wf(m: TaskResolveMaps) -> bool {
    &&& forall|k: int|
        0 <= k < m.exceptions@.len() ==> text_wf((#[trigger] m.exceptions@[k]).0@) && path_wf(
            m.exceptions@[k].1@,
        )
    &&& forall|k: int|
        0 <= k < m.interrupts@.len() ==> path_wf((#[trigger] m.interrupts@[k]).1.0@) && text_wf(
            m.interrupts@[k].1.1@,
        )
    &&& forall|k: int| 0 <= k < m.sw_assocs@.len() ==> path_wf((#[trigger] m.sw_assocs@[k]).1@)
}

pub open spec fn metadata_text_wf(m: Metadata) -> bool {
    maps_text_wf(m.maps) && text_wf(m.reset_timestamp@)
}

pub open spec fn packet_text_wf(p: TracePacket) -> bool {
    match p {
        TracePacket::InternalTask { name } => text_wf(name@),
        TracePacket::ExternalTask { nr } => true,
        TracePacket::SoftwareTask { id } => true,
        TracePacket::Unknown { desc } => text_wf(desc@),
    }
}

pub open spec fn trace_data_text_wf(d: TraceData) -> bool {
    forall|k: int| 0 <= k < d.packets@.len() ==> packet_text_wf(#[trigger] d.packets@[k])
}

pub proof fn lemma_json_of_path_wf(p: Seq<Seq<char>>)
    requires
        path_wf(p),
    ensures
        json_wf(json_of_path(p)),
{
    let es = arr_elems(json_of_path(p));
    assert forall|k: int| 0 <= k < es.len() implies json_wf(#[trigger] es[k]) by {
        assert(es[k] == jstr(p[k]));
        assert(text_wf(p[k]));
    }
    assert(json_wf(json_of_path(p)));
}

pub proof fn lemma_json_of_maps_wf(m: TaskResolveMaps)
    requires
        maps_text_wf(m),
    ensures
        json_wf(json_of_maps(m)),
{
    let exc = arr_elems(json_of_exceptions(m.exceptions@));
    assert forall|k: int| 0 <= k < exc.len() implies json_wf(#[trigger] exc[k]) by {
        assert(exc[k] == JsonVal::Arr(
            seq![jstr(m.exceptions@[k].0@), json_of_path(m.exceptions@[k].1@)],
        ));
        lemma_json_of_path_wf(m.exceptions@[k].1@);
        assert(json_wf(jstr(m.exceptions@[k].0@)));
    }
    assert(json_wf(json_of_exceptions(m.exceptions@)));
    let ints = arr_elems(json_of_interrupts(m.interrupts@));
    assert forall|k: int| 0 <= k < ints.len() implies json_wf(#[trigger] ints[k]) by {
        assert(ints[k] == JsonVal::Arr(
            seq![
                jnum(m.interrupts@[k].0 as nat),
                json_of_path(m.interrupts@[k].1.0@),
                jstr(m.interrupts@[k].1.1@),
            ],
        ));
        lemma_json_of_path_wf(m.interrupts@[k].1.0@);
        lemma_dec_digits_wf(m.interrupts@[k].0 as nat);
        assert(json_wf(jnum(m.interrupts@[k].0 as nat)));
        assert(json_wf(jstr(m.interrupts@[k].1.1@)));
    }
    assert(json_wf(json_of_interrupts(m.interrupts@)));
    let sw = arr_elems(json_of_sw_assocs(m.sw_assocs@));
    assert forall|k: int| 0 <= k < sw.len() implies json_wf(#[trigger] sw[k]) by {
        assert(sw[k] == JsonVal::Arr(
            seq![jnum(m.sw_assocs@[k].0 as nat), json_of_path(m.sw_assocs@[k].1@)],
        ));
        lemma_json_of_path_wf(m.sw_assocs@[k].1@);
        lemma_dec_digits_wf(m.sw_assocs@[k].0 as nat);
        assert(json_wf(jnum(m.sw_assocs@[k].0 as nat)));
    }
    assert(json_wf(json_of_sw_assocs(m.sw_assocs@)));
}

pub proof fn lemma_json_of_metadata_wf(m: Metadata)
    requires
        metadata_text_wf(m),
    ensures
        json_wf(json_of_metadata(m)),
{
    lemma_json_of_maps_wf(m.maps);
    lemma_dec_digits_wf(m.trace_clock_freq as nat);
    assert(json_wf(jnum(m.trace_clock_freq as nat)));
    assert(json_wf(jstr(m.reset_timestamp@)));
}

pub proof fn lemma_json_of_packet_wf(p: TracePacket)
    requires
        packet_text_wf(p),
    ensures
        json_wf(json_of_packet(p)),
{
    proof_tag_literals_wf();
    let es = arr_elems(json_of_packet(p));
    match p {
        TracePacket::InternalTask { name } => {
            assert(es[0] == jstr("exception"@));
            assert(es[1] == jstr(name@));
        },
        TracePacket::ExternalTask { nr } => {
            lemma_dec_digits_wf(nr as nat);
            assert(es[0] == jstr("interrupt"@));
            assert(es[1] == jnum(nr as nat));
        },
        TracePacket::SoftwareTask { id } => {
            lemma_dec_digits_wf(id as nat);
            assert(es[0] == jstr("task"@));
            assert(es[1] == jnum(id as nat));
        },
        TracePacket::Unknown { desc } => {
            assert(es[0] == jstr("unknown"@));
            assert(es[1] == jstr(desc@));
        },
    }
    assert forall|k: int| 0 <= k < es.len() implies json_wf(#[trigger] es[k]) by {
        assert(k == 0 || k == 1);
    }
    assert(json_wf(json_of_packet(p)));
}

/// The fixed kind tags hold no quote and no backslash.
pub proof fn proof_tag_literals_wf()
    ensures
        text_wf("exception"@),
        text_wf("interrupt"@),
        text_wf("task"@),
        text_wf("unknown"@),
{
    reveal_strlit("exception");
    reveal_strlit("interrupt");
    reveal_strlit("task");
    reveal_strlit("unknown");
}

pub proof fn lemma_json_of_trace_data_wf(d: TraceData)
    requires
        trace_data_text_wf(d),
    ensures
        json_wf(json_of_trace_data(d)),
{
    lemma_dec_digits_wf(d.ticks as nat);
    let ps = arr_elems(arr_elems(json_of_trace_data(d))[1]);
    assert(ps == Seq::new(d.packets@.len(), |k: int| json_of_packet(d.packets@[k])));
    assert forall|k: int| 0 <= k < ps.len() implies json_wf(#[trigger] ps[k]) by {
        assert(ps[k] == json_of_packet(d.packets@[k]));
        lemma_json_of_packet_wf(d.packets@[k]);
    }
    assert(json_wf(JsonVal::Arr(ps)));
    assert(json_wf(jnum(d.ticks as nat)));
}

/// The values a trace file holds: the header, then one value per
/// drained batch, in drain order.
pub open spec fn trace_file_values(m: Metadata, batches: Seq<TraceData>) -> Seq<JsonVal> {
    seq![json_of_metadata(m)] + Seq::new(batches.len(), |k: int| json_of_trace_data(batches[k]))
}

/// Round trip of a whole trace file: encoding the header and a
/// sequence of batches and re-parsing the text as a self-delimited
/// JSON stream yields exactly the header followed by the batches, in
/// order.
pub proof fn lemma_trace_file_round_trip(m: Metadata, batches: Seq<TraceData>)
    requires
        metadata_text_wf(m),
        forall|k: int| 0 <= k < batches.len() ==> trace_data_text_wf(#[trigger] batches[k]),
    ensures
        parse_stream(enc_stream(trace_file_values(m, batches)), 0) == Some(
            trace_file_values(m, batches),
        ),
{
    let vs = trace_file_values(m, batches);
    assert forall|k: int| 0 <= k < vs.len() implies json_wf(#[trigger] vs[k]) by {
        if k == 0 {
            lemma_json_of_metadata_wf(m);
        } else {
            lemma_json_of_trace_data_wf(batches[k - 1]);
            assert(vs[k] == json_of_trace_data(batches[k - 1]));
        }
    }
    lemma_stream_round_trip(vs);
}


/// Where the parser ends the value starting at `i`.
pub open spec fn parse_val_end_spec(s: Seq<char>, i: int) -> Option<int> {
    match parse_val(s, i) {
        Some((v, j)) => Some(j),
        None => None,
    }
}

/// Where the parser ends the element list starting at `i`.
pub open spec fn parse_elems_end_spec(s: Seq<char>, i: int) -> Option<int> {
    match parse_elems(s, i) {
        Some((es, j)) => Some(j),
        None => None,
    }
}

fn find_quote_at(s: &str, j: usize) -> (r: Option<usize>)
    requires
        j <= s@.len(),
    ensures
        match r {
            Some(q) => find_quote(s@, j as int) == Some(q as int) && j <= q < s@.len(),
            None => find_quote(s@, j as int) is None,
        },
    decreases s@.len() - j,
{
    if j >= s.unicode_len() {
        None
    } else if s.get_char(j) == '"' {
        Some(j)
    } else {
        find_quote_at(s, j + 1)
    }
}

fn value_end(s: &str, i: usize) -> (r: Option<usize>)
    requires
        i <= s@.len(),
    ensures
        match r {
            Some(j) => parse_val_end_spec(s@, i as int) == Some(j as int) && i < j <= s@.len(),
            None => parse_val_end_spec(s@, i as int) is None,
        },
    decreases s@.len() - i, 0int,
{
    let n = s.unicode_len();
    if i >= n {
        return None;
    }
    let c = s.get_char(i);
    if c == '"' {
        match find_quote_at(s, i + 1) {
            Some(q) => Some(q + 1),
            None => None,
        }
    } else if c == '[' {
        if i + 1 < n && s.get_char(i + 1) == ']' {
            Some(i + 2)
        } else {
            match elems_end(s, i + 1) {
                Some(j) => if j < n && s.get_char(j) == ']' {
                    Some(j + 1)
                } else {
                    None
                },
                None => None,
            }
        }
    } else {
        None
    }
}

fn elems_end(s: &str, i: usize) -> (r: Option<usize>)
    requires
        i <= s@.len(),
    ensures
        match r {
            Some(j) => parse_elems_end_spec(s@, i as int) == Some(j as int) && i < j <= s@.len(),
            None => parse_elems_end_spec(s@, i as int) is None,
        },
    decreases s@.len() - i, 1int,
{
    match value_end(s, i) {
        Some(j) => {
            if j < s.unicode_len() && s.get_char(j) == ',' {
                match elems_end(s, j + 1) {
                    Some(k) => Some(k),
                    None => None,
                }
            } else {
                Some(j)
            }
        },
        None => None,
    }
}

/// The concatenation of a sequence of texts.
pub open spec fn concat_texts(ts: Seq<Seq<char>>) -> Seq<char>
    decreases ts.len(),
{
    if ts.len() == 0 {
        Seq::empty()
    } else {
        concat_texts(ts.drop_last()) + ts.last()
    }
}

/// Splits a trace stream into its value texts, cutting exactly where
/// the parser ends each value: the header's text first, then one text
/// per batch. Fails exactly when the stream does not parse.
pub fn split_stream(s: &str) -> (r: Option<Vec<String>>)
    ensures
        match r {
            Some(pieces) => {
                &&& parse_stream(s@, 0) is Some
                &&& concat_texts(pieces.deep_view()) == s@
            },
            None => parse_stream(s@, 0) is None,
        },
{
    let mut pieces: Vec<String> = Vec::new();
    let mut i: usize = 0;
    let n = s.unicode_len();
    proof {
        assert(concat_texts(pieces.deep_view()) =~= s@.subrange(0, 0));
    }
    while i < n
        invariant
            i <= n,
            n == s@.len(),
            concat_texts(pieces.deep_view()) == s@.subrange(0, i as int),
            parse_stream(s@, 0) is Some <==> parse_stream(s@, i as int) is Some,
        decreases n - i,
    {
        match value_end(s, i) {
            Some(j) => {
                let piece = s.substring_char(i, j);
                let ghost d0 = pieces.deep_view();
                pieces.push(String::from_str(piece));
                proof {
                    assert(pieces.deep_view() =~= d0.push(s@.subrange(i as int, j as int)));
                    assert(pieces.deep_view().drop_last() =~= d0);
                    assert(concat_texts(pieces.deep_view()) =~= s@.subrange(0, j as int));
                    assert(parse_stream(s@, i as int) is Some <==> parse_stream(
                        s@,
                        j as int,
                    ) is Some);
                }
                i = j;
            },
            None => {
                proof {
                    assert(parse_stream(s@, i as int) is None);
                }
                return None;
            },
        }
    }
    proof {
        assert(parse_stream(s@, i as int) == Some(Seq::<JsonVal>::empty()));
        assert(s@.subrange(0, i as int) =~= s@);
    }
    Some(pieces)
}

} // verus!

//! Metering of a relayed server-sent-event stream: every chunk from the
//! upstream model is counted, the answer text its data lines carry is
//! collected, the token usage the stream reports is read, and the data line
//! `[DONE]` settles the bill, once per stream; a stream that stops before it
//! gives its reserved units back.
use vstd::prelude::*;

use crate::external::{from_utf8_lossy, json_str_at, json_str_at_of, json_u64_at, json_u64_at_of, utf8_lossy_of};
use crate::text::{
    chars_of, contains_in, equals_in, has_prefix, lemma_text_lines_concat,
    lemma_text_lines_of_one_line, newline_pieces, seq_contains, starts_with_in, strip_cr,
    text_lines,
};

verus! {

/// How long a collected answer stays in the cache, in seconds (one day).
pub const CACHE_TTL_SECONDS: u64 = 86400;

/// The largest usage a report may state: what a signed 64-bit deduction holds.
pub const MAX_USAGE: u64 = 9223372036854775807;

/// `data: `, the prefix of an event-stream data line with its optional space.
pub open spec fn data_prefix() -> Seq<char> {
    seq!['d', 'a', 't', 'a', ':', ' ']
}

/// `data:`, the field name of an event-stream data line.
pub open spec fn data_field() -> Seq<char> {
    seq!['d', 'a', 't', 'a', ':']
}

/// `[DONE]`, the terminal data marker.
pub open spec fn done_marker() -> Seq<char> {
    seq!['[', 'D', 'O', 'N', 'E', ']']
}

/// The data a line carries: for a `data:` line, what follows the field name
/// and one optional space; `None` for every other line.
pub open spec fn data_payload(line: Seq<char>) -> Option<Seq<char>> {
    if has_prefix(line, data_prefix()) {
        Some(line.skip(6))
    } else if has_prefix(line, data_field()) {
        Some(line.skip(5))
    } else {
        None
    }
}

/// A data line whose data is exactly `[DONE]`: the line that ends a stream.
pub open spec fn is_end_line(line: Seq<char>) -> bool {
    data_payload(line) == Some(done_marker())
}

/// The JSON a line carries: the data of a `data:` line that does not mention
/// `[DONE]`.
pub open spec fn json_payload(line: Seq<char>) -> Option<Seq<char>> {
    match data_payload(line) {
        Some(p) => if seq_contains(line, done_marker()) {
            None
        } else {
            Some(p)
        },
        None => None,
    }
}

/// The answer text one line carries: the string at
/// `choices[0].delta.content` of the JSON it carries; nothing for a line that
/// carries no JSON.
pub open spec fn line_delta(line: Seq<char>) -> Seq<char> {
    match json_payload(line) {
        Some(json) => match json_str_at_of(json, "choices"@, 0, "delta"@, "content"@) {
            Some(t) => t,
            None => Seq::<char>::empty(),
        },
        None => Seq::<char>::empty(),
    }
}

/// The token usage a JSON event reports: `usage.prompt_tokens` plus
/// `usage.completion_tokens`, when both are there and their sum is at most
/// `MAX_USAGE`.
pub open spec fn usage_of(json: Seq<char>) -> Option<u64> {
    match (
        json_u64_at_of(json, "usage"@, "prompt_tokens"@),
        json_u64_at_of(json, "usage"@, "completion_tokens"@),
    ) {
        (Some(p), Some(c)) => if p + c <= MAX_USAGE {
            Some((p + c) as u64)
        } else {
            None
        },
        _ => None,
    }
}

/// The token usage one line reports, for a data line.
pub open spec fn line_usage(line: Seq<char>) -> Option<u64> {
    match json_payload(line) {
        Some(json) => usage_of(json),
        None => None,
    }
}

/// The answer text carried by a sequence of lines, in order.
pub open spec fn lines_delta(lines: Seq<Seq<char>>) -> Seq<char>
    decreases lines.len(),
{
    if lines.len() == 0 {
        Seq::<char>::empty()
    } else {
        lines_delta(lines.drop_last()) + line_delta(lines.last())
    }
}

/// The last token usage reported among a sequence of lines.
pub open spec fn lines_usage(lines: Seq<Seq<char>>) -> Option<u64>
    decreases lines.len(),
{
    if lines.len() == 0 {
        None
    } else {
        match line_usage(lines.last()) {
            Some(u) => Some(u),
            None => lines_usage(lines.drop_last()),
        }
    }
}

/// Some line of the sequence ends the stream.
pub open spec fn lines_end(lines: Seq<Seq<char>>) -> bool
    decreases lines.len(),
{
    if lines.len() == 0 {
        false
    } else {
        lines_end(lines.drop_last()) || is_end_line(lines.last())
    }
}

/// The text of a raw chunk, decoded as the stream decodes it.
pub open spec fn chunk_text(chunk: Seq<u8>) -> Seq<char> {
    utf8_lossy_of(chunk)
}

/// The answer text carried by one chunk of stream text.
pub open spec fn chunk_delta(text: Seq<char>) -> Seq<char> {
    lines_delta(text_lines(text))
}

/// The last token usage reported in one chunk of stream text.
pub open spec fn chunk_usage(text: Seq<char>) -> Option<u64> {
    lines_usage(text_lines(text))
}

/// One chunk of stream text holds a line whose data is exactly `[DONE]`
/// (`data: [DONE]` or `data:[DONE]`).
pub open spec fn marks_end(text: Seq<char>) -> bool {
    lines_end(text_lines(text))
}

/// The answer text carried by a sequence of raw chunks, in order.
pub open spec fn stream_answer(chunks: Seq<Seq<u8>>) -> Seq<char>
    decreases chunks.len(),
{
    if chunks.len() == 0 {
        Seq::<char>::empty()
    } else {
        stream_answer(chunks.drop_last()) + chunk_delta(chunk_text(chunks.last()))
    }
}

/// The last token usage reported in a sequence of raw chunks.
pub open spec fn stream_usage(chunks: Seq<Seq<u8>>) -> Option<u64>
    decreases chunks.len(),
{
    if chunks.len() == 0 {
        None
    } else {
        match chunk_usage(chunk_text(chunks.last())) {
            Some(u) => Some(u),
            None => stream_usage(chunks.drop_last()),
        }
    }
}

/// Some chunk of the sequence ends the stream.
pub open spec fn stream_ended(chunks: Seq<Seq<u8>>) -> bool
    decreases chunks.len(),
{
    if chunks.len() == 0 {
        false
    } else {
        stream_ended(chunks.drop_last()) || marks_end(chunk_text(chunks.last()))
    }
}

/// The units a stream is billed: the token usage it reported last, or, where
/// it reported none, the number of chunks relayed.
pub open spec fn billed_units(usage: Option<u64>, chunks: int) -> int {
    match usage {
        Some(u) => u as int,
        None => chunks,
    }
}

/// The redis key of an agent's remaining quota: `quota:` and the agent id.
pub open spec fn quota_key_of(agent_id: Seq<char>) -> Seq<char> {
    seq!['q', 'u', 'o', 't', 'a', ':'] + agent_id
}

/// An answer to store in the cache.
pub struct CacheEntry {
    pub key: String,
    pub value: String,
    pub ttl_seconds: u64,
}

/// What the end of a stream asks of the store: take `deduct` more units from
/// the quota under `quota_key` (the units reserved before forwarding already
/// count; a negative amount gives units back), and store `cache_entry` when
/// there is one.
pub struct Settlement {
    pub quota_key: String,
    pub deduct: i64,
    pub cache_entry: Option<CacheEntry>,
}

/// The settlement owed for a stream billed `billed` units of which `reserved`
/// were taken in advance, with `collected` collected, for the given keys.
pub open spec fn settlement_matches(
    s: Settlement,
    quota_key: Seq<char>,
    cache_key: Seq<char>,
    billed: int,
    reserved: int,
    collected: Seq<char>,
) -> bool {
    &&& s.quota_key@ == quota_key
    &&& s.deduct == billed - reserved
    &&& if cache_key.len() > 0 && collected.len() > 0 {
        s.cache_entry matches Some(e) && e.key@ == cache_key && e.value@ == collected
            && e.ttl_seconds == CACHE_TTL_SECONDS
    } else {
        s.cache_entry is None
    }
}

/// What one line of a chunk says.
struct LineReading {
    usage: Option<u64>,
    ends: bool,
}

/// Reads the line `lo..hi` of `chars`: appends its answer text to `collected`
/// and tells the usage it reports and whether it ends the stream.
fn read_line(
    collected: &mut String,
    text: &str,
    chars: &Vec<char>,
    lo: usize,
    hi: usize,
) -> (r: LineReading)
    requires
        chars@ == text@,
        lo <= hi <= chars.len(),
    ensures
        final(collected)@ == old(collected)@ + line_delta(chars@.subrange(lo as int, hi as int)),
        r.usage == line_usage(chars@.subrange(lo as int, hi as int)),
        r.ends == is_end_line(chars@.subrange(lo as int, hi as int)),
        r.usage matches Some(u) ==> u <= MAX_USAGE,
{
    let ghost line = chars@.subrange(lo as int, hi as int);
    let spaced = vec!['d', 'a', 't', 'a', ':', ' '];
    let bare = vec!['d', 'a', 't', 'a', ':'];
    let marker = vec!['[', 'D', 'O', 'N', 'E', ']'];
    assert(spaced@ =~= data_prefix());
    assert(bare@ =~= data_field());
    assert(marker@ =~= done_marker());
    let skip: usize = if starts_with_in(chars, lo, hi, &spaced) {
        6
    } else if starts_with_in(chars, lo, hi, &bare) {
        5
    } else {
        assert(data_payload(line) is None);
        assert(collected@ =~= collected@ + Seq::<char>::empty());
        return LineReading { usage: None, ends: false };
    };
    let start = lo + skip;
    assert(data_payload(line) == Some(chars@.subrange(start as int, hi as int))) by {
        assert(line.skip(skip as int) =~= chars@.subrange(start as int, hi as int));
    };
    let ends = equals_in(chars, start, hi, &marker);
    if contains_in(chars, lo, hi, &marker) {
        assert(collected@ =~= collected@ + Seq::<char>::empty());
        return LineReading { usage: None, ends };
    }
    let json = text.substring_char(start, hi);
    match json_str_at(json, "choices", 0, "delta", "content") {
        Some(t) => {
            collected.append(t.as_str());
        },
        None => {
            assert(collected@ =~= collected@ + Seq::<char>::empty());
        },
    }
    let prompt_tokens = json_u64_at(json, "usage", "prompt_tokens");
    let completion_tokens = json_u64_at(json, "usage", "completion_tokens");
    let usage = match (prompt_tokens, completion_tokens) {
        (Some(p), Some(c)) => {
            if p <= MAX_USAGE && c <= MAX_USAGE - p {
                Some(p + c)
            } else {
                None
            }
        },
        _ => None,
    };
    LineReading { usage, ends }
}

/// What one chunk says.
struct ChunkReading {
    usage: Option<u64>,
    ends: bool,
}

/// Reads one raw chunk of the stream: appends the answer text of its lines to
/// `collected`, and tells the last usage it reports and whether it ends the
/// stream.
fn scan_chunk(collected: &mut String, chunk: &[u8]) -> (r: ChunkReading)
    ensures
        final(collected)@ == old(collected)@ + chunk_delta(chunk_text(chunk@)),
        r.usage == chunk_usage(chunk_text(chunk@)),
        r.ends == marks_end(chunk_text(chunk@)),
        r.usage matches Some(u) ==> u <= MAX_USAGE,
{
    let text = from_utf8_lossy(chunk);
    let chars = chars_of(text.as_str());
    let ghost start_collected = collected@;
    let ghost mut done: Seq<Seq<char>> = Seq::empty();
    let mut usage: Option<u64> = None;
    let mut ends = false;
    let mut start: usize = 0;
    let mut k: usize = 0;
    assert(chars@.take(0) =~= Seq::<char>::empty());
    assert(done.push(chars@.subrange(0, 0)) =~= seq![Seq::<char>::empty()]);
    assert(done.map_values(|l: Seq<char>| strip_cr(l)) =~= Seq::<Seq<char>>::empty());
    while k < chars.len()
        invariant
            chars@ == text@,
            start <= k <= chars.len(),
            newline_pieces(chars@.take(k as int)) == done.push(
                chars@.subrange(start as int, k as int),
            ),
            collected@ == start_collected + lines_delta(
                done.map_values(|l: Seq<char>| strip_cr(l)),
            ),
            usage == lines_usage(done.map_values(|l: Seq<char>| strip_cr(l))),
            ends == lines_end(done.map_values(|l: Seq<char>| strip_cr(l))),
            usage matches Some(u) ==> u <= MAX_USAGE,
        decreases chars.len() - k,
    {
        assert(chars@.take(k + 1).drop_last() =~= chars@.take(k as int));
        assert(chars@.take(k + 1).last() == chars@[k as int]);
        if chars[k] == '\n' {
            let ghost piece = chars@.subrange(start as int, k as int);
            let end = if k > start && chars[k - 1] == '\r' {
                k - 1
            } else {
                k
            };
            assert(chars@.subrange(start as int, end as int) == strip_cr(piece)) by {
                if k > start && chars@[k - 1] == '\r' {
                    assert(piece.drop_last() =~= chars@.subrange(start as int, end as int));
                }
            };
            let line = read_line(collected, text.as_str(), &chars, start, end);
            if line.usage.is_some() {
                usage = line.usage;
            }
            ends = ends || line.ends;
            proof {
                let old_done = done;
                let old_map = old_done.map_values(|l: Seq<char>| strip_cr(l));
                done = done.push(piece);
                let new_map = done.map_values(|l: Seq<char>| strip_cr(l));
                assert(new_map =~= old_map.push(strip_cr(piece)));
                assert(new_map.drop_last() =~= old_map);
                assert(new_map.last() == strip_cr(piece));
                assert(lines_delta(new_map) == lines_delta(old_map) + line_delta(
                    strip_cr(piece),
                ));
                assert(collected@ =~= start_collected + lines_delta(new_map));
                assert(chars@.subrange((k + 1) as int, (k + 1) as int) =~= Seq::<char>::empty());
            }
            start = k + 1;
        } else {
            assert(chars@.subrange(start as int, k + 1) =~= chars@.subrange(
                start as int,
                k as int,
            ).push(chars@[k as int]));
        }
        k = k + 1;
    }
    assert(chars@.take(chars@.len() as int) =~= chars@);
    let ghost rest = chars@.subrange(start as int, chars@.len() as int);
    let ghost stripped = done.map_values(|l: Seq<char>| strip_cr(l));
    proof {
        assert(newline_pieces(text@).drop_last() =~= done);
        assert(newline_pieces(text@).last() == rest);
    }
    if start < chars.len() {
        let line = read_line(collected, text.as_str(), &chars, start, chars.len());
        if line.usage.is_some() {
            usage = line.usage;
        }
        ends = ends || line.ends;
        proof {
            let all = stripped.push(rest);
            assert(text_lines(text@) =~= all);
            assert(all.drop_last() =~= stripped);
            assert(all.last() == rest);
            assert(collected@ =~= start_collected + lines_delta(text_lines(text@)));
        }
    } else {
        assert(text_lines(text@) =~= stripped);
    }
    ChunkReading { usage, ends }
}

/// What a meter has counted: the chunks relayed so far (ghost), their number,
/// the answer text collected from them, the last usage they reported, whether
/// the stream was closed before it ended, whether it is settled, and how many
/// settlements were issued (ghost).
struct Tally {
    relayed: Ghost<Seq<Seq<u8>>>,
    chunks: i32,
    collected: String,
    usage: Option<u64>,
    closed_early: bool,
    settled: bool,
    settlements: Ghost<nat>,
}

/// The meter of one relayed stream.
pub struct StreamMeter {
    quota_key: String,
    cache_key: String,
    reserved: u32,
    tally: Tally,
}

impl StreamMeter {
    /// The quota key the meter bills.
    pub closed spec fn quota_key_view(&self) -> Seq<char> {
        self.quota_key@
    }

    /// The cache key under which the answer is stored (empty: no caching).
    pub closed spec fn cache_key_view(&self) -> Seq<char> {
        self.cache_key@
    }

    /// The quota units taken before the stream began.
    pub closed spec fn reserved_view(&self) -> int {
        self.reserved as int
    }

    /// The raw chunks metered so far, in order.
    pub closed spec fn relayed_view(&self) -> Seq<Seq<u8>> {
        self.tally.relayed@
    }

    /// The number of chunks metered so far.
    pub closed spec fn chunk_count_view(&self) -> int {
        self.tally.chunks as int
    }

    /// The answer text collected so far.
    pub closed spec fn collected_view(&self) -> Seq<char> {
        self.tally.collected@
    }

    /// The last token usage the stream reported so far.
    pub closed spec fn usage_view(&self) -> Option<u64> {
        self.tally.usage
    }

    /// Whether the stream has ended (and been settled).
    pub closed spec fn settled_view(&self) -> bool {
        self.tally.settled
    }

    /// How many settlements the meter has issued.
    pub closed spec fn settlements_view(&self) -> nat {
        self.tally.settlements@
    }

    /// What every meter keeps true: it has counted each relayed chunk once,
    /// collected in order the answer text of every relayed chunk, kept the
    /// last reported usage, and issued one settlement if the stream has ended
    /// or was closed, and none otherwise.
    #[verifier::type_invariant]
    pub closed spec fn consistent(&self) -> bool {
        &&& self.tally.chunks as int == self.tally.relayed@.len()
        &&& self.tally.collected@ == stream_answer(self.tally.relayed@)
        &&& self.tally.usage == stream_usage(self.tally.relayed@)
        &&& self.tally.usage matches Some(u) ==> u <= MAX_USAGE
        &&& self.tally.settled == (stream_ended(self.tally.relayed@) || self.tally.closed_early)
        &&& self.tally.settlements@ == if self.tally.settled {
            1nat
        } else {
            0nat
        }
    }

    /// A meter for a stream relayed for `agent_id` after `reserved` quota
    /// units were taken, whose answer is cached under `cache_key` (no caching
    /// where it is empty).
    pub fn new(agent_id: &str, cache_key: &str, reserved: u32) -> (m: StreamMeter)
        ensures
            m.quota_key_view() == quota_key_of(agent_id@),
            m.cache_key_view() == cache_key@,
            m.reserved_view() == reserved,
            m.relayed_view() == Seq::<Seq<u8>>::empty(),
            m.chunk_count_view() == 0,
            m.collected_view() == Seq::<char>::empty(),
            m.usage_view() is None,
            !m.settled_view(),
            m.settlements_view() == 0,
    {
        proof {
            reveal_strlit("quota:");
        }
        let quota_key = String::from_str("quota:").concat(agent_id);
        assert(quota_key@ =~= quota_key_of(agent_id@));
        StreamMeter {
            quota_key,
            cache_key: String::from_str(cache_key),
            reserved,
            tally: Tally {
                relayed: Ghost(Seq::empty()),
                chunks: 0,
                collected: String::new(),
                usage: None,
                closed_early: false,
                settled: false,
                settlements: Ghost(0),
            },
        }
    }

    /// The number of chunks metered so far.
    pub fn chunk_count(&self) -> (n: i32)
        ensures
            n == self.chunk_count_view(),
    {
        self.tally.chunks
    }

    /// The answer text collected so far.
    pub fn collected(&self) -> (t: String)
        ensures
            t@ == self.collected_view(),
    {
        self.tally.collected.clone()
    }

    /// The last token usage the stream reported so far.
    pub fn usage(&self) -> (u: Option<u64>)
        ensures
            u == self.usage_view(),
    {
        self.tally.usage
    }

    /// Meters one chunk of the upstream stream: counts it, collects the answer
    /// text of its lines and the usage they report, and, where the chunk holds
    /// a line whose data is `[DONE]` and the stream was not settled before, returns
    /// the settlement: the billed units (the reported usage, else the chunk
    /// count) less the reserved units, and the answer to cache. The chunk
    /// itself is relayed as it came; the meter never changes it.
    pub fn on_chunk(&mut self, chunk: &[u8]) -> (settled: Option<Settlement>)
        requires
            old(self).chunk_count_view() < i32::MAX,
        ensures
            final(self).quota_key_view() == old(self).quota_key_view(),
            final(self).cache_key_view() == old(self).cache_key_view(),
            final(self).reserved_view() == old(self).reserved_view(),
            final(self).relayed_view() == old(self).relayed_view().push(chunk@),
            final(self).chunk_count_view() == old(self).chunk_count_view() + 1,
            final(self).collected_view() == old(self).collected_view() + chunk_delta(
                chunk_text(chunk@),
            ),
            final(self).usage_view() == (match chunk_usage(chunk_text(chunk@)) {
                Some(u) => Some(u),
                None => old(self).usage_view(),
            }),
            final(self).settled_view() == (old(self).settled_view() || marks_end(
                chunk_text(chunk@),
            )),
            final(self).chunk_count_view() == final(self).relayed_view().len(),
            final(self).collected_view() == stream_answer(final(self).relayed_view()),
            final(self).usage_view() == stream_usage(final(self).relayed_view()),
            settled is Some <==> !old(self).settled_view() && marks_end(chunk_text(chunk@)),
            final(self).settlements_view() == old(self).settlements_view() + if settled is Some {
                1nat
            } else {
                0nat
            },
            settled matches Some(s) ==> settlement_matches(
                s,
                final(self).quota_key_view(),
                final(self).cache_key_view(),
                billed_units(final(self).usage_view(), final(self).chunk_count_view()),
                final(self).reserved_view(),
                final(self).collected_view(),
            ),
    {
        proof {
            use_type_invariant(&*self);
        }
        let mut tally = Tally {
            relayed: Ghost(Seq::empty()),
            chunks: 0,
            collected: String::new(),
            usage: None,
            closed_early: false,
            settled: false,
            settlements: Ghost(0),
        };
        core::mem::swap(&mut self.tally, &mut tally);
        let was_settled = tally.settled;
        let reading = scan_chunk(&mut tally.collected, chunk);
        let ghost relayed = tally.relayed@.push(chunk@);
        assert(relayed.drop_last() =~= tally.relayed@);
        let usage = if reading.usage.is_some() {
            reading.usage
        } else {
            tally.usage
        };
        let settles = !was_settled && reading.ends;
        let tally = Tally {
            relayed: Ghost(relayed),
            chunks: tally.chunks + 1,
            collected: tally.collected,
            usage,
            closed_early: tally.closed_early,
            settled: was_settled || reading.ends,
            settlements: Ghost(if was_settled || reading.ends {
                1nat
            } else {
                0nat
            }),
        };
        self.tally = tally;
        if settles {
            let billed: i64 = match self.tally.usage {
                Some(u) => u as i64,
                None => self.tally.chunks as i64,
            };
            let cache_entry = if !self.cache_key.as_str().is_empty()
                && !self.tally.collected.as_str().is_empty() {
                Some(
                    CacheEntry {
                        key: self.cache_key.clone(),
                        value: self.tally.collected.clone(),
                        ttl_seconds: CACHE_TTL_SECONDS,
                    },
                )
            } else {
                None
            };
            Some(
                Settlement {
                    quota_key: self.quota_key.clone(),
                    deduct: billed - self.reserved as i64,
                    cache_entry,
                },
            )
        } else {
            None
        }
    }

    /// Closes the meter when the relayed stream stops (it ran out, failed, or
    /// its reader went away). A stream that never ended is not billed: its
    /// settlement only gives the reserved units back and caches nothing. A
    /// stream already settled gets no second settlement.
    pub fn finish(&mut self) -> (released: Option<Settlement>)
        ensures
            final(self).quota_key_view() == old(self).quota_key_view(),
            final(self).cache_key_view() == old(self).cache_key_view(),
            final(self).reserved_view() == old(self).reserved_view(),
            final(self).relayed_view() == old(self).relayed_view(),
            final(self).chunk_count_view() == old(self).chunk_count_view(),
            final(self).collected_view() == old(self).collected_view(),
            final(self).usage_view() == old(self).usage_view(),
            final(self).settled_view(),
            released is Some <==> !old(self).settled_view(),
            final(self).settlements_view() == old(self).settlements_view() + if released is Some {
                1nat
            } else {
                0nat
            },
            released matches Some(s) ==> s.quota_key@ == final(self).quota_key_view() && s.deduct
                == -final(self).reserved_view() && s.cache_entry is None,
    {
        proof {
            use_type_invariant(&*self);
        }
        if self.tally.settled {
            return None;
        }
        let mut tally = Tally {
            relayed: Ghost(Seq::empty()),
            chunks: 0,
            collected: String::new(),
            usage: None,
            closed_early: false,
            settled: false,
            settlements: Ghost(0),
        };
        core::mem::swap(&mut self.tally, &mut tally);
        let tally = Tally {
            relayed: tally.relayed,
            chunks: tally.chunks,
            collected: tally.collected,
            usage: tally.usage,
            closed_early: true,
            settled: true,
            settlements: Ghost(1nat),
        };
        self.tally = tally;
        Some(
            Settlement {
                quota_key: self.quota_key.clone(),
                deduct: 0 - self.reserved as i64,
                cache_entry: None,
            },
        )
    }
}

/// Whatever chunks a meter has relayed: it counted each once, the answer it
/// would cache is the in-order concatenation of the answer text each carried,
/// the usage it bills is the last one reported, and it has issued at most one
/// settlement (exactly one once some chunk ended the stream or the meter was
/// closed).
pub proof fn lemma_meter_accounts_for_every_chunk(m: StreamMeter)
    requires
        m.consistent(),
    ensures
        m.chunk_count_view() == m.relayed_view().len(),
        m.collected_view() == stream_answer(m.relayed_view()),
        m.usage_view() == stream_usage(m.relayed_view()),
        m.settlements_view() <= 1,
        m.settlements_view() == 1 <==> m.settled_view(),
        stream_ended(m.relayed_view()) ==> m.settlements_view() == 1,
{
}

/// Metering is compositional: the answer read from a stream cut anywhere is
/// the answer of the first part followed by the answer of the rest.
pub proof fn lemma_stream_answer_concat(a: Seq<Seq<u8>>, b: Seq<Seq<u8>>)
    ensures
        stream_answer(a + b) == stream_answer(a) + stream_answer(b),
    decreases b.len(),
{
    if b.len() == 0 {
        assert(a + b =~= a);
        assert(stream_answer(a) + stream_answer(b) =~= stream_answer(a));
    } else {
        lemma_stream_answer_concat(a, b.drop_last());
        assert((a + b).drop_last() =~= a + b.drop_last());
        assert((a + b).last() == b.last());
        assert(stream_answer(a + b) =~= stream_answer(a) + stream_answer(b));
    }
}

/// The usage billed for a stream cut anywhere is the last one reported: that
/// of the second part where it reports one, else that of the first.
pub proof fn lemma_stream_usage_concat(a: Seq<Seq<u8>>, b: Seq<Seq<u8>>)
    ensures
        stream_usage(a + b) == (match stream_usage(b) {
            Some(u) => Some(u),
            None => stream_usage(a),
        }),
    decreases b.len(),
{
    if b.len() == 0 {
        assert(a + b =~= a);
    } else {
        lemma_stream_usage_concat(a, b.drop_last());
        assert((a + b).drop_last() =~= a + b.drop_last());
        assert((a + b).last() == b.last());
    }
}

/// Once a stream has ended it stays ended, whatever follows: a meter never
/// settles a stream twice.
pub proof fn lemma_stream_ended_stays(a: Seq<Seq<u8>>, b: Seq<Seq<u8>>)
    requires
        stream_ended(a),
    ensures
        stream_ended(a + b),
    decreases b.len(),
{
    if b.len() == 0 {
        assert(a + b =~= a);
    } else {
        lemma_stream_ended_stays(a, b.drop_last());
        assert((a + b).drop_last() =~= a + b.drop_last());
    }
}

/// The answer text, usage and end of two runs of lines read one after the
/// other: texts concatenate, the later report wins, and either may end.
proof fn lemma_lines_concat(a: Seq<Seq<char>>, b: Seq<Seq<char>>)
    ensures
        lines_delta(a + b) == lines_delta(a) + lines_delta(b),
        lines_usage(a + b) == (match lines_usage(b) {
            Some(u) => Some(u),
            None => lines_usage(a),
        }),
        lines_end(a + b) == (lines_end(a) || lines_end(b)),
    decreases b.len(),
{
    if b.len() == 0 {
        assert(a + b =~= a);
        assert(lines_delta(a) + lines_delta(b) =~= lines_delta(a));
    } else {
        lemma_lines_concat(a, b.drop_last());
        assert((a + b).drop_last() =~= a + b.drop_last());
        assert((a + b).last() == b.last());
        assert(lines_delta(a + b) =~= lines_delta(a) + lines_delta(b));
    }
}

/// Metering does not depend on where the transport cuts the stream between
/// lines: a chunk made of a text that ends in a newline followed by more text
/// carries the answer text of both parts in order, reports the usage of the
/// second part (or, where it reports none, of the first), and ends the stream
/// exactly when one of the parts does.
pub proof fn lemma_chunk_split_at_line_end(x: Seq<char>, y: Seq<char>)
    requires
        x.len() > 0,
        x.last() == '\n',
    ensures
        chunk_delta(x + y) == chunk_delta(x) + chunk_delta(y),
        chunk_usage(x + y) == (match chunk_usage(y) {
            Some(u) => Some(u),
            None => chunk_usage(x),
        }),
        marks_end(x + y) == (marks_end(x) || marks_end(y)),
{
    lemma_text_lines_concat(x, y);
    lemma_lines_concat(text_lines(x), text_lines(y));
}

/// A chunk of one newline-ended line is read as that line, less a carriage
/// return before the newline.
pub proof fn lemma_chunk_of_one_line(l: Seq<char>)
    requires
        forall|i: int| 0 <= i < l.len() ==> l[i] != '\n',
    ensures
        chunk_delta(l.push('\n')) == line_delta(strip_cr(l)),
        chunk_usage(l.push('\n')) == line_usage(strip_cr(l)),
        marks_end(l.push('\n')) == is_end_line(strip_cr(l)),
{
    lemma_text_lines_of_one_line(l);
    let ls = seq![strip_cr(l)];
    assert(ls.drop_last() =~= Seq::<Seq<char>>::empty());
    assert(ls.last() == strip_cr(l));
    assert(lines_delta(ls.drop_last()) == Seq::<char>::empty());
    assert(lines_usage(ls.drop_last()) is None);
    assert(!lines_end(ls.drop_last()));
    assert(lines_delta(ls) =~= line_delta(strip_cr(l)));
}

/// Every chunk that holds a line ending the stream, after any whole lines
/// and before anything else, ends the stream.
pub proof fn lemma_end_line_ends_stream(x: Seq<char>, l: Seq<char>, y: Seq<char>)
    requires
        x.len() == 0 || x.last() == '\n',
        forall|i: int| 0 <= i < l.len() ==> l[i] != '\n',
        is_end_line(l),
    ensures
        marks_end(x + l.push('\n') + y),
{
    let k: int = if has_prefix(l, data_prefix()) {
        6
    } else {
        5
    };
    assert(l.skip(k) == done_marker());
    assert(l.skip(k).last() == ']');
    assert(l.last() == ']');
    assert(strip_cr(l) == l);
    let line = l.push('\n');
    lemma_chunk_of_one_line(l);
    lemma_chunk_split_at_line_end(line, y);
    if x.len() > 0 {
        lemma_chunk_split_at_line_end(x, line + y);
        assert(x + line + y =~= x + (line + y));
    } else {
        assert(x + line + y =~= line + y);
    }
}

/// `data: [DONE]` and `data:[DONE]` are lines that end the stream.
pub proof fn lemma_done_lines_end_stream()
    ensures
        is_end_line(data_prefix() + done_marker()),
        is_end_line(data_field() + done_marker()),
        forall|i: int|
            0 <= i < (data_prefix() + done_marker()).len() ==> (data_prefix()
                + done_marker())[i] != '\n',
        forall|i: int|
            0 <= i < (data_field() + done_marker()).len() ==> (data_field() + done_marker())[i]
                != '\n',
{
    let a = data_prefix() + done_marker();
    let b = data_field() + done_marker();
    assert(a.subrange(0, 6) =~= data_prefix());
    assert(a.skip(6) =~= done_marker());
    assert(b.subrange(0, 6)[5] == '[');
    assert(b.subrange(0, 6) != data_prefix());
    assert(b.subrange(0, 5) =~= data_field());
    assert(b.skip(5) =~= done_marker());
}

/// A data line carries exactly the JSON after its field name and one
/// optional space: its answer text is that JSON's `choices[0].delta.content`
/// and its usage that JSON's, unless the line mentions `[DONE]`.
pub proof fn lemma_data_line_reads_its_json(j: Seq<char>, spaced: bool)
    requires
        !spaced ==> j.len() == 0 || j[0] != ' ',
        !seq_contains(
            (if spaced {
                data_prefix()
            } else {
                data_field()
            }) + j,
            done_marker(),
        ),
    ensures
        ({
            let line = (if spaced {
                data_prefix()
            } else {
                data_field()
            }) + j;
            &&& line_delta(line) == (match json_str_at_of(j, "choices"@, 0, "delta"@, "content"@) {
                Some(t) => t,
                None => Seq::<char>::empty(),
            })
            &&& line_usage(line) == usage_of(j)
        }),
{
    if spaced {
        let line = data_prefix() + j;
        assert(line.subrange(0, 6) =~= data_prefix());
        assert(line.skip(6) =~= j);
        assert(data_payload(line) == Some(j));
    } else {
        let line = data_field() + j;
        assert(line.subrange(0, 5) =~= data_field());
        assert(line.skip(5) =~= j);
        if j.len() > 0 {
            assert(line.subrange(0, 6)[5] == j[0]);
            assert(line.subrange(0, 6) != data_prefix());
        }
        assert(data_payload(line) == Some(j));
    }
}

/// A line that is not a `data:` line carries nothing: no answer text, no
/// usage, and it does not end the stream.
pub proof fn lemma_other_lines_carry_nothing(line: Seq<char>)
    requires
        !has_prefix(line, data_field()),
    ensures
        line_delta(line) == Seq::<char>::empty(),
        line_usage(line) is None,
        !is_end_line(line),
{
    if has_prefix(line, data_prefix()) {
        assert(line.subrange(0, 5) =~= line.subrange(0, 6).subrange(0, 5));
        assert(data_prefix().subrange(0, 5) =~= data_field());
    }
}

/// A settled stream that reported its token usage is charged exactly that
/// usage, however many chunks it took; one that reported none is charged one
/// unit per chunk. Either way the reserved units count toward the charge.
pub proof fn lemma_reported_usage_is_charged(
    s: Settlement,
    quota_key: Seq<char>,
    cache_key: Seq<char>,
    usage: Option<u64>,
    chunks: int,
    reserved: int,
    collected: Seq<char>,
)
    requires
        settlement_matches(
            s,
            quota_key,
            cache_key,
            billed_units(usage, chunks),
            reserved,
            collected,
        ),
    ensures
        usage matches Some(u) ==> reserved + s.deduct == u,
        usage is None ==> reserved + s.deduct == chunks,
{
}

/// Different agents bill different quota keys.
pub proof fn lemma_quota_keys_distinguish_agents(a: Seq<char>, b: Seq<char>)
    requires
        quota_key_of(a) == quota_key_of(b),
    ensures
        a == b,
{
    assert(a =~= quota_key_of(a).subrange(6, quota_key_of(a).len() as int));
    assert(b =~= quota_key_of(b).subrange(6, quota_key_of(b).len() as int));
}

} // verus!

//! The legacy direct transport: reading the upstream's streamed answer.
use vstd::prelude::*;
use vstd::string::*;
use crate::http::{copy_slice, exec_find_byte, find_byte, lossy_text, lossy_utf8};
use crate::json::{as_array, as_str, get, get_opt, get_in, Json};
use crate::text::{starts_with, str_eq, str_starts_with, trim, trim_spec};

verus! {

/// Reply used when the stream carried no text.
pub const NO_REPLY_TEXT: &'static str = "(无回复)";

/// Lines of `s[pos..]`, split at line feeds (the text after a final line
/// feed is not a line).
pub open spec fn byte_lines(s: Seq<u8>, pos: int) -> Seq<Seq<u8>>
    decreases s.len() - pos,
{
    if pos < 0 || pos >= s.len() {
        Seq::empty()
    } else {
        let e = find_byte(s, 10, pos, s.len() as int);
        if e < pos || e >= s.len() {
            seq![s.subrange(pos, s.len() as int)]
        } else {
            seq![s.subrange(pos, e)] + byte_lines(s, e + 1)
        }
    }
}

/// `s` with every leading copy of `p` removed.
pub open spec fn strip_all_prefix(s: Seq<char>, p: Seq<char>) -> Seq<char>
    decreases s.len(),
{
    if p.len() > 0 && starts_with(s, p) {
        strip_all_prefix(s.subrange(p.len() as int, s.len() as int), p)
    } else {
        s
    }
}

/// The JSON payload that one line of the stream carries: a `data:` event's
/// data (not `[DONE]`), or a bare JSON line.
pub open spec fn line_payload(line: Seq<char>) -> Option<Seq<char>> {
    let t = trim_spec(line);
    if t.len() == 0 {
        None
    } else if starts_with(t, "data:"@) {
        let p = trim_spec(strip_all_prefix(t, "data:"@));
        if p.len() == 0 || p == "[DONE]"@ { None } else { Some(p) }
    } else if t[0] == '{' || t[0] == '[' {
        Some(t)
    } else {
        None
    }
}

/// Payloads of all lines, in order.
pub open spec fn payloads_of(lines: Seq<Seq<u8>>) -> Seq<Seq<char>>
    decreases lines.len(),
{
    if lines.len() == 0 {
        Seq::empty()
    } else {
        let w = payloads_of(lines.drop_last());
        match line_payload(lossy_utf8(lines.last())) {
            Some(p) => w.push(p),
            None => w,
        }
    }
}

fn strip_all_prefix_exec(s: String, p: &str) -> (r: String)
    requires
        p@.len() > 0,
    ensures
        r@ == strip_all_prefix(s@, p@),
    decreases s@.len(),
{
    if str_starts_with(s.as_str(), p) {
        let n = s.unicode_len();
        let k = p.unicode_len();
        let rest = s.as_str().substring_char(k, n).to_string();
        strip_all_prefix_exec(rest, p)
    } else {
        s
    }
}

/// The payload of one line.
pub fn line_payload_exec(line: &str) -> (r: Option<String>)
    ensures
        match r {
            Some(p) => line_payload(line@) == Some(p@),
            None => line_payload(line@) is None,
        },
{
    let t = trim(line);
    if t.unicode_len() == 0 {
        return None;
    }
    if str_starts_with(t.as_str(), "data:") {
        proof {
            reveal_strlit("data:");
        }
        let stripped = strip_all_prefix_exec(t, "data:");
        let p = trim(stripped.as_str());
        if p.unicode_len() == 0 || str_eq(p.as_str(), "[DONE]") {
            return None;
        }
        return Some(p);
    }
    let c = t.as_str().get_char(0);
    if c == '{' || c == '[' {
        Some(t)
    } else {
        None
    }
}

/// The JSON payloads of a streamed answer, in order.
pub fn stream_payloads(text: &str) -> (r: Vec<String>)
    ensures
        strings_view(r@) == payloads_of(byte_lines(text.spec_bytes(), 0)),
{
    let bytes = text.as_bytes();
    let n = bytes.len();
    let mut out: Vec<String> = Vec::new();
    let mut pos: usize = 0;
    let ghost mut done: Seq<Seq<u8>> = Seq::empty();
    while pos < n
        invariant
            n == bytes@.len(),
            bytes@ == text.spec_bytes(),
            pos <= n,
            done + byte_lines(bytes@, pos as int) == byte_lines(bytes@, 0),
            strings_view(out@) == payloads_of(done),
        decreases n - pos,
    {
        let e = exec_find_byte(bytes, 10u8, pos, n);
        let line_bytes = copy_slice(bytes, pos, e);
        let line = lossy_text(line_bytes.as_slice());
        proof {
            let l = bytes@.subrange(pos as int, e as int);
            if e < n {
                assert(byte_lines(bytes@, pos as int) == seq![l] + byte_lines(bytes@, e + 1));
                assert(done.push(l) + byte_lines(bytes@, e + 1) =~= done + byte_lines(bytes@, pos as int));
            } else {
                assert(byte_lines(bytes@, pos as int) == seq![l]);
            }
            assert(done.push(l).drop_last() =~= done);
            done = done.push(l);
        }
        if let Some(p) = line_payload_exec(line.as_str()) {
            let ghost before = out@;
            out.push(p);
            proof {
                assert(strings_view(out@) =~= strings_view(before).push(p@));
            }
        }
        if e >= n {
            proof {
                assert(done =~= byte_lines(bytes@, 0));
                assert(byte_lines(bytes@, n as int) == Seq::<Seq<u8>>::empty());
                assert(done + byte_lines(bytes@, n as int) =~= byte_lines(bytes@, 0));
            }
            pos = n;
        } else {
            pos = e + 1;
        }
    }
    proof {
        assert(done + Seq::<Seq<u8>>::empty() =~= done);
    }
    out
}

pub open spec fn strings_view(v: Seq<String>) -> Seq<Seq<char>> {
    v.map_values(|s: String| s@)
}

/// Result of a successful wakeup call.
#[derive(Clone, Debug)]
pub struct WakeupResponse {
    pub reply: String,
    pub prompt_tokens: Option<u32>,
    pub completion_tokens: Option<u32>,
    pub total_tokens: Option<u32>,
    pub trace_id: Option<String>,
    pub response_id: Option<String>,
    pub duration_ms: u64,
}

/// What has been read so far from a streamed answer.
pub struct StreamAccumulator {
    pub reply_parts: Vec<String>,
    pub prompt_tokens: Option<u32>,
    pub completion_tokens: Option<u32>,
    pub total_tokens: Option<u32>,
    pub trace_id: Option<String>,
    pub response_id: Option<String>,
}

pub open spec fn first_of2(a: Option<Json>, b: Option<Json>) -> Option<Json> {
    if a is Some { a } else { b }
}

/// The first candidate of an event: under `response` when there, else at
/// the top level.
pub open spec fn candidate_of(obj: Json) -> Option<Json> {
    let a = match as_array(get_opt(get(obj, "response"@), "candidates"@)) {
        Some(c) => if c.len() > 0 { Some(c[0]) } else { None },
        None => None,
    };
    let b = match as_array(get(obj, "candidates"@)) {
        Some(c) => if c.len() > 0 { Some(c[0]) } else { None },
        None => None,
    };
    first_of2(a, b)
}

/// Texts of the parts, skipping thought parts and empty texts.
pub open spec fn part_texts(parts: Seq<Json>) -> Seq<Seq<char>>
    decreases parts.len(),
{
    if parts.len() == 0 {
        Seq::empty()
    } else {
        let w = part_texts(parts.drop_last());
        let p = parts.last();
        if get(p, "thought"@) == Some(Json::Bool(true)) {
            w
        } else {
            match as_str(get(p, "text"@)) {
                Some(t) => if t.len() > 0 { w.push(t) } else { w },
                None => w,
            }
        }
    }
}

/// Reply texts that one event adds.
pub open spec fn event_texts(obj: Json) -> Seq<Seq<char>> {
    match as_array(get_opt(get_opt(candidate_of(obj), "content"@), "parts"@)) {
        Some(parts) => part_texts(parts),
        None => Seq::empty(),
    }
}

/// A token count read from usage metadata: a non-negative integer, cut to 32 bits.
pub open spec fn count_of(j: Option<Json>) -> Option<u32> {
    match j {
        Some(Json::Int(i)) => if i >= 0 { Some(i as u64 as u32) } else { None },
        _ => None,
    }
}

fn first_of2_exec<'a>(a: Option<&'a Json>, b: Option<&'a Json>) -> (r: Option<&'a Json>)
    ensures
        crate::trajectory::opt(r) == first_of2(crate::trajectory::opt(a), crate::trajectory::opt(b)),
{
    if a.is_some() { a } else { b }
}

fn first_element(j: Option<&Json>) -> (r: Option<&Json>)
    ensures
        crate::trajectory::opt(r) == match as_array(crate::trajectory::opt(j)) {
            Some(c) => if c.len() > 0 { Some(c[0]) } else { None },
            None => None,
        },
{
    match j {
        Some(v) => match v.as_array() {
            Some(c) => if c.len() > 0 { Some(&c[0]) } else { None },
            None => None,
        },
        None => None,
    }
}

fn count_exec(j: Option<&Json>) -> (r: Option<u32>)
    ensures
        r == count_of(crate::trajectory::opt(j)),
{
    match j {
        Some(Json::Int(i)) => if *i >= 0 { Some(*i as u64 as u32) } else { None },
        _ => None,
    }
}

pub open spec fn opt_chars(o: Option<String>) -> Option<Seq<char>> {
    match o {
        Some(s) => Some(s@),
        None => None,
    }
}

impl StreamAccumulator {
    pub fn new() -> (r: Self)
        ensures
            r.reply_parts@.len() == 0,
            r.prompt_tokens is None && r.completion_tokens is None && r.total_tokens is None,
            r.trace_id is None && r.response_id is None,
    {
        StreamAccumulator {
            reply_parts: Vec::new(),
            prompt_tokens: None,
            completion_tokens: None,
            total_tokens: None,
            trace_id: None,
            response_id: None,
        }
    }

    /// Takes one event: its reply texts are appended; token counts, trace id
    /// and response id are filled in where still unknown.
    pub fn process(&mut self, obj: &Json)
        ensures
            strings_view(final(self).reply_parts@) == strings_view(old(self).reply_parts@) + event_texts(*obj),
            ({
                let usage = first_of2(get_opt(get(*obj, "response"@), "usageMetadata"@), get(*obj, "usageMetadata"@));
                let all_known = old(self).prompt_tokens is Some && old(self).completion_tokens is Some
                    && old(self).total_tokens is Some;
                &&& final(self).prompt_tokens == (if all_known || old(self).prompt_tokens is Some {
                    old(self).prompt_tokens
                } else {
                    count_of(get_opt(usage, "promptTokenCount"@))
                })
                &&& final(self).completion_tokens == (if all_known || old(self).completion_tokens is Some {
                    old(self).completion_tokens
                } else {
                    count_of(get_opt(usage, "candidatesTokenCount"@))
                })
                &&& final(self).total_tokens == (if all_known || old(self).total_tokens is Some {
                    old(self).total_tokens
                } else {
                    count_of(get_opt(usage, "totalTokenCount"@))
                })
            }),
            opt_chars(final(self).trace_id) == (if old(self).trace_id is Some {
                opt_chars(old(self).trace_id)
            } else {
                as_str(get(*obj, "traceId"@))
            }),
            opt_chars(final(self).response_id) == (if old(self).response_id is Some {
                opt_chars(old(self).response_id)
            } else {
                as_str(first_of2(get_opt(get(*obj, "response"@), "responseId"@), get(*obj, "responseId"@)))
            }),
    {
        let response = obj.get("response");
        let candidate = first_of2_exec(first_element(get_in(response, "candidates")), first_element(obj.get("candidates")));
        let parts = get_in(get_in(candidate, "content"), "parts");
        if let Some(pv) = parts {
            if let Some(list) = pv.as_array() {
                let mut i: usize = 0;
                let ghost start = strings_view(self.reply_parts@);
                while i < list.len()
                    invariant
                        i <= list@.len(),
                        strings_view(self.reply_parts@) == start + part_texts(list@.subrange(0, i as int)),
                        start == strings_view(old(self).reply_parts@),
                        self.prompt_tokens == old(self).prompt_tokens,
                        self.completion_tokens == old(self).completion_tokens,
                        self.total_tokens == old(self).total_tokens,
                        self.trace_id == old(self).trace_id,
                        self.response_id == old(self).response_id,
                    decreases list@.len() - i,
                {
                    proof {
                        assert(list@.subrange(0, i + 1).drop_last() =~= list@.subrange(0, i as int));
                    }
                    let p = &list[i];
                    let thought = match p.get("thought") {
                        Some(Json::Bool(b)) => *b,
                        _ => false,
                    };
                    if !thought {
                        if let Some(t) = get_in(Some(p), "text") {
                            if let Some(text) = t.as_str() {
                                if text.unicode_len() > 0 {
                                    let ghost before = self.reply_parts@;
                                    self.reply_parts.push(text.clone());
                                    proof {
                                        assert(strings_view(self.reply_parts@) =~= strings_view(before).push(text@));
                                    }
                                }
                            }
                        }
                    }
                    proof {
                        assert(strings_view(self.reply_parts@) =~= start + part_texts(list@.subrange(0, i + 1)));
                    }
                    i += 1;
                }
                proof {
                    assert(list@.subrange(0, i as int) =~= list@);
                }
            } else {
                proof {
                    assert(strings_view(self.reply_parts@) =~= strings_view(old(self).reply_parts@) + Seq::<Seq<char>>::empty());
                }
            }
        } else {
            proof {
                assert(strings_view(self.reply_parts@) =~= strings_view(old(self).reply_parts@) + Seq::<Seq<char>>::empty());
            }
        }
        if self.prompt_tokens.is_none() || self.completion_tokens.is_none() || self.total_tokens.is_none() {
            let usage = first_of2_exec(get_in(response, "usageMetadata"), obj.get("usageMetadata"));
            if usage.is_some() {
                if self.prompt_tokens.is_none() {
                    self.prompt_tokens = count_exec(get_in(usage, "promptTokenCount"));
                }
                if self.completion_tokens.is_none() {
                    self.completion_tokens = count_exec(get_in(usage, "candidatesTokenCount"));
                }
                if self.total_tokens.is_none() {
                    self.total_tokens = count_exec(get_in(usage, "totalTokenCount"));
                }
            }
        }
        if self.trace_id.is_none() {
            self.trace_id = match obj.get("traceId") {
                Some(v) => match v.as_str() {
                    Some(t) => Some(t.clone()),
                    None => None,
                },
                None => None,
            };
        }
        if self.response_id.is_none() {
            self.response_id = match first_of2_exec(get_in(response, "responseId"), obj.get("responseId")) {
                Some(v) => match v.as_str() {
                    Some(t) => Some(t.clone()),
                    None => None,
                },
                None => None,
            };
        }
    }
}

/// The texts joined in order.
pub open spec fn joined(parts: Seq<Seq<char>>) -> Seq<char>
    decreases parts.len(),
{
    if parts.len() == 0 { Seq::empty() } else { joined(parts.drop_last()) + parts.last() }
}

/// Ends the reading of a streamed answer that lasted `duration_ms`: fails
/// when no event came; otherwise the reply is the joined texts, or a marker
/// when there were none, and an unknown completion count is zero.
pub fn finish_stream(acc: StreamAccumulator, got_event: bool, duration_ms: u64) -> (r: Result<WakeupResponse, String>)
    ensures
        got_event <==> r is Ok,
        r matches Ok(w) ==> {
            &&& w.reply@ == (if acc.reply_parts@.len() == 0 {
                NO_REPLY_TEXT@
            } else {
                joined(strings_view(acc.reply_parts@))
            })
            &&& w.prompt_tokens == acc.prompt_tokens
            &&& w.completion_tokens == (if acc.completion_tokens is Some {
                acc.completion_tokens
            } else {
                Some(0u32)
            })
            &&& w.total_tokens == acc.total_tokens
            &&& w.trace_id == acc.trace_id
            &&& w.response_id == acc.response_id
            &&& w.duration_ms == duration_ms
        },
{
    if !got_event {
        return Err("the stream carried no data".to_string());
    }
    let StreamAccumulator { reply_parts, prompt_tokens, completion_tokens, total_tokens, trace_id, response_id } = acc;
    let reply = if reply_parts.len() == 0 {
        NO_REPLY_TEXT.to_string()
    } else {
        let mut out = String::new();
        let mut i: usize = 0;
        while i < reply_parts.len()
            invariant
                i <= reply_parts@.len(),
                out@ == joined(strings_view(reply_parts@.subrange(0, i as int))),
            decreases reply_parts@.len() - i,
        {
            proof {
                assert(strings_view(reply_parts@.subrange(0, i + 1)).drop_last() =~= strings_view(
                    reply_parts@.subrange(0, i as int),
                ));
            }
            out.append(reply_parts[i].as_str());
            i += 1;
        }
        proof {
            assert(reply_parts@.subrange(0, i as int) =~= reply_parts@);
        }
        out
    };
    let completion = match completion_tokens {
        Some(c) => Some(c),
        None => Some(0u32),
    };
    Ok(WakeupResponse {
        reply,
        prompt_tokens,
        completion_tokens: completion,
        total_tokens,
        trace_id,
        response_id,
        duration_ms,
    })
}

} // verus!

//! The course of reading a run's log from the server, chunk after chunk.
use super::errors::CliError;
use super::errors::CliErrorView;
use super::query;
use crate::outside;
use crate::outside::pair_views;
use crate::text;
use vstd::prelude::*;

verus! {

/// A log that is being read.
#[derive(Debug, PartialEq, Eq)]
pub struct LogStream {
    pub address: String,
    pub attempt: Option<u32>,
    pub follow: bool,
    pub offset: u64,
}

/// A part of a log as it came.
#[derive(Clone, Copy, Debug, PartialEq, Eq, Structural)]
pub struct Chunk {
    pub offset: u64,
    pub next: u64,
    pub complete: bool,
    /// True when nothing more is asked for.
    pub last: bool,
}

/// What the next part of a log is asked for with: where it begins and how much of it, how long the
/// server may wait where the log is followed, and which attempt.
pub open spec fn chunk_query(attempt: Option<u32>, follow: bool, offset: u64) -> Seq<(Seq<char>, Seq<char>)> {
    let begin = seq![("offset"@, text::decimal(offset as nat)), ("limit"@, "65536"@)];
    let waiting = if follow {
        begin.push(("wait"@, "20s"@))
    } else {
        begin
    };
    match attempt {
        Some(number) => waiting.push(("attempt"@, text::decimal(number as nat))),
        None => waiting,
    }
}

/// What an answer says of a part of a log, or why it cannot be taken: it must say where the next
/// part begins, and that must be where this one ends.
pub open spec fn taken(
    offset: u64,
    follow: bool,
    next: Option<Seq<char>>,
    complete: Option<Seq<char>>,
    length: nat,
) -> Result<Chunk, CliErrorView> {
    let number = match next {
        Some(value) => text::unsigned_number(value),
        None => None,
    };
    let end = if offset + length <= u64::MAX {
        offset + length
    } else {
        u64::MAX as int
    };
    if number is None {
        Err(CliErrorView { exit_code: 2, message: "log response omitted a valid next offset"@ })
    } else if number->0 != end {
        Err(CliErrorView { exit_code: 2, message: "log response offset did not match its chunk length"@ })
    } else {
        Ok(
            Chunk {
                offset,
                next: number->0,
                complete: complete == Some("true"@),
                last: complete == Some("true"@) || (!follow && length == 0),
            },
        )
    }
}

/// What a header says, where there is one.
pub open spec fn header_view(value: Option<&str>) -> Option<Seq<char>> {
    match value {
        Some(value) => Some(value@),
        None => None,
    }
}

impl LogStream {
    /// Begins to read the log of a run.
    pub fn begin(base: &str, id: &str, attempt: Option<u32>, follow: bool) -> (r: LogStream)
        ensures
            r.address@ == base@ + "/runs/"@ + id@ + "/logs"@,
            r.attempt == attempt,
            r.follow == follow,
            r.offset == 0,
    {
        LogStream { address: text::join4(base, "/runs/", id, "/logs"), attempt, follow, offset: 0 }
    }

    /// What the next part is asked for with.
    pub fn pairs(&self) -> (r: Vec<(String, String)>)
        ensures
            pair_views(r@) == chunk_query(self.attempt, self.follow, self.offset),
    {
        let mut out: Vec<(String, String)> = Vec::new();
        let offset: String = text::decimal_text(self.offset);
        out.push(("offset".to_owned(), offset));
        out.push(("limit".to_owned(), "65536".to_owned()));
        if self.follow {
            out.push(("wait".to_owned(), "20s".to_owned()));
        }
        if let Some(number) = self.attempt {
            let text: String = text::decimal_text(number as u64);
            out.push(("attempt".to_owned(), text));
        }
        assert(pair_views(out@) =~= chunk_query(self.attempt, self.follow, self.offset));
        out
    }

    /// Tells whether the address of the next part is short enough to be written.
    pub fn fits(&self) -> (r: bool)
        ensures
            r == query::fits(self.address@, chunk_query(self.attempt, self.follow, self.offset)),
    {
        query::query_fits(self.address.as_str(), &self.pairs())
    }

    /// The address of the next part.
    pub fn next_address(&self) -> (r: Result<String, CliError>)
        requires
            query::fits(self.address@, chunk_query(self.attempt, self.follow, self.offset)),
        ensures
            match r {
                Ok(url) => query::queried(self.address@, chunk_query(self.attempt, self.follow, self.offset)) == Ok::<
                    Seq<char>,
                    CliErrorView,
                >(url@),
                Err(error) => query::queried(self.address@, chunk_query(self.attempt, self.follow, self.offset))
                    == Err::<Seq<char>, CliErrorView>(error@),
            },
    {
        let pairs: Vec<(String, String)> = self.pairs();
        query::with_query(self.address.as_str(), &pairs)
    }

    /// Takes a part of the log: what the answer's headers say of it and how many bytes came.
    pub fn take(&mut self, next: Option<&str>, complete: Option<&str>, length: usize) -> (r: Result<Chunk, CliError>)
        ensures
            match r {
                Ok(chunk) => taken(
                    old(self).offset,
                    old(self).follow,
                    header_view(next),
                    header_view(complete),
                    length as nat,
                ) == Ok::<Chunk, CliErrorView>(chunk) && *final(self) == (LogStream { offset: chunk.next, ..*old(self) }),
                Err(error) => taken(
                    old(self).offset,
                    old(self).follow,
                    header_view(next),
                    header_view(complete),
                    length as nat,
                ) == Err::<Chunk, CliErrorView>(error@) && *final(self) == *old(self),
            },
    {
        let number: u64 = match next {
            Some(value) => match text::parse_unsigned(value) {
                Some(number) => number,
                None => {
                    return Err(CliError::local("log response omitted a valid next offset".to_owned()));
                },
            },
            None => {
                return Err(CliError::local("log response omitted a valid next offset".to_owned()));
            },
        };
        if number != self.offset.saturating_add(length as u64) {
            return Err(CliError::local("log response offset did not match its chunk length".to_owned()));
        }
        let done: bool = match complete {
            Some(value) => text::same(value, "true"),
            None => false,
        };
        let chunk: Chunk = Chunk {
            offset: self.offset,
            next: number,
            complete: done,
            last: done || (!self.follow && length == 0),
        };
        self.offset = number;
        Ok(chunk)
    }
}

/// A truth value as a JSON document.
pub open spec fn json_truth(value: bool) -> Seq<char> {
    if value {
        "true"@
    } else {
        "false"@
    }
}

/// A part of a log as a JSON object, its members in the order of their names.
pub open spec fn line_of(chunk: Chunk, bytes: Seq<u8>) -> Seq<char> {
    "{\"complete\":"@ + json_truth(chunk.complete) + ",\"data\":"@ + outside::json_string(outside::lossy_text(bytes))
        + ",\"next_offset\":"@ + text::decimal(chunk.next as nat) + ",\"offset\":"@ + text::decimal(
        chunk.offset as nat,
    ) + "}"@
}

/// The line that shows a part of a log as JSON: where it begins and where the next one does, whether
/// the log is complete, and the text that its bytes write.
pub fn chunk_line(chunk: Chunk, bytes: &[u8]) -> (r: String)
    ensures
        r@ == line_of(chunk, bytes@),
{
    let complete: &str = if chunk.complete {
        "true"
    } else {
        "false"
    };
    let data: String = outside::json_text(outside::text_from_utf8(bytes).as_str());
    let mut out: String = text::join4("{\"complete\":", complete, ",\"data\":", data.as_str());
    out.append(",\"next_offset\":");
    out.append(text::decimal_text(chunk.next).as_str());
    out.append(",\"offset\":");
    out.append(text::decimal_text(chunk.offset).as_str());
    out.append("}");
    out
}

/// Each part begins where the one before it ended, so that the parts in order are the log; and a log
/// that is complete is not asked for again.
pub proof fn law_chunks_follow_each_other(
    offset: u64,
    follow: bool,
    next: Option<Seq<char>>,
    complete: Option<Seq<char>>,
    length: nat,
)
    requires
        taken(offset, follow, next, complete, length) is Ok,
        offset + length <= u64::MAX,
    ensures
        ({
            let chunk = taken(offset, follow, next, complete, length)->Ok_0;
            &&& chunk.offset == offset
            &&& chunk.next == offset + length
            &&& chunk.complete ==> chunk.last
            &&& chunk.last && !chunk.complete ==> length == 0
        }),
{
}

/// A piece of a log is taken where the server says where it ends and that is as far behind the offset as the piece is
/// long; reading goes on there. It is the last one where the log is complete, or where nothing came and nobody
/// waits for more.
pub proof fn law_pieces_end_where_the_server_says(
    offset: u64,
    follow: bool,
    next: Option<Seq<char>>,
    complete: Option<Seq<char>>,
    length: nat,
)
    requires
        offset + length <= u64::MAX,
    ensures
        ({
            let r = taken(offset, follow, next, complete, length);
            &&& r is Ok <==> next is Some && text::unsigned_number(next->0) is Some && text::unsigned_number(next->0)->0
                == offset + length
            &&& r is Err ==> r->Err_0.exit_code == 2
            &&& r is Ok ==> {
                &&& r->Ok_0.offset == offset
                &&& r->Ok_0.next == offset + length
                &&& r->Ok_0.complete <==> complete == Some("true"@)
                &&& r->Ok_0.last <==> complete == Some("true"@) || (length == 0 && !follow)
            }
        }),
{
}

/// A piece is asked for from an offset, with a wait where somebody follows the log and with the attempt where one is
/// named.
pub proof fn law_pieces_are_asked_for_by_offset(attempt: Option<u32>, follow: bool, offset: u64)
    ensures
        ({
            let pairs = chunk_query(attempt, follow, offset);
            &&& pairs[0] == ("offset"@, text::decimal(offset as nat))
            &&& pairs.len() == 2 + (if follow { 1int } else { 0 }) + (if attempt is Some { 1int } else { 0 })
            &&& follow ==> pairs[2].0 == "wait"@
            &&& attempt is Some ==> pairs.last() == ("attempt"@, text::decimal(attempt->0 as nat))
        }),
{
}

} // verus!

#![allow(non_snake_case)]

use vstd::prelude::*;
use vstd::string::StringSliceAdditionalSpecFns;

verus! {

/// Envelope of a REST answer of the venue.
#[derive(Debug)]
pub struct OkxResponse<T> {
    pub code: String,
    pub msg: String,
    pub data: Vec<T>,
}

/// A spread instrument as the venue lists it.
#[derive(Debug)]
pub struct Spread {
    pub sprdId: String,
    pub sprdType: String,
    pub state: String,
    pub baseCcy: String,
    pub szCcy: String,
    pub quoteCcy: String,
    pub tickSz: String,
    pub minSz: String,
    pub lotSz: String,
    pub listTime: String,
    pub expTime: String,
    pub uTime: String,
    pub legs: Vec<Leg>,
}

/// One leg of a spread.
#[derive(Debug)]
pub struct Leg {
    pub instId: String,
    pub side: String,
}

/// An instrument as the venue lists it; the venue leaves out what does not
/// apply to the instrument's kind.
#[derive(Debug)]
pub struct Instrument {
    pub instType: Option<String>,
    pub instId: Option<String>,
    pub uly: Option<String>,
    pub instFamily: Option<String>,
    pub category: Option<String>,
    pub baseCcy: Option<String>,
    pub quoteCcy: Option<String>,
    pub settleCcy: Option<String>,
    pub ctVal: Option<String>,
    pub ctMult: Option<String>,
    pub ctValCcy: Option<String>,
    pub optType: Option<String>,
    pub stk: Option<String>,
    pub listTime: Option<String>,
    pub auctionEndTime: Option<String>,
    pub expTime: Option<String>,
    pub lever: Option<String>,
    pub tickSz: Option<String>,
    pub lotSz: Option<String>,
    pub minSz: Option<String>,
    pub ctType: Option<String>,
    pub alias: Option<String>,
    pub state: Option<String>,
    pub ruleType: Option<String>,
    pub maxLmtSz: Option<String>,
    pub maxMktSz: Option<String>,
    pub maxLmtAmt: Option<String>,
    pub maxMktAmt: Option<String>,
    pub maxTwapSz: Option<String>,
    pub maxIcebergSz: Option<String>,
    pub maxTriggerSz: Option<String>,
    pub maxStopSz: Option<String>,
    pub futureSettlement: Option<bool>,
}

/// A push of the book channel with the sequence fields beside its data.
#[derive(Debug)]
pub struct BookMsg {
    pub arg: BookArg,
    /// `snapshot` or `update`
    pub action: Option<String>,
    pub data: Vec<BookData>,
    pub ts: i64,
    pub checksum: Option<i64>,
    pub seqId: Option<i64>,
    pub prevSeqId: Option<i64>,
}

/// A push of the book channel.
#[derive(Debug)]
pub struct WsBookPush {
    pub arg: BookArg,
    pub action: Option<String>,
    pub data: Vec<BookData>,
}

/// Channel and instrument that a push belongs to.
#[derive(Debug)]
pub struct BookArg {
    pub channel: String,
    pub instId: String,
}

/// Levels of one push. A level is four texts: price, size, and two fields
/// that the book does not read.
#[derive(Debug)]
pub struct BookData {
    pub asks: Vec<[String; 4]>,
    pub bids: Vec<[String; 4]>,
    pub ts: String,
    pub checksum: Option<i64>,
    pub seqId: Option<i64>,
    pub prevSeqId: Option<i64>,
}

/// One decoded push for the book: a full image or a set of changes.
#[derive(Debug)]
pub enum BookEvent {
    Snapshot(BookData),
    Update(BookData),
}

/// Whether two texts hold the same characters.
pub fn same_text(a: &str, b: &str) -> (r: bool)
    ensures
        r == (a@ == b@),
{
    let x = a.as_bytes();
    let y = b.as_bytes();
    proof {
        vstd::utf8::encode_utf8_decode_utf8(a@);
        vstd::utf8::encode_utf8_decode_utf8(b@);
    }
    if x.len() != y.len() {
        return false;
    }
    let mut i: usize = 0;
    while i < x.len()
        invariant
            i <= x@.len(),
            x@.len() == y@.len(),
            x@ == a.spec_bytes(),
            y@ == b.spec_bytes(),
            forall|j: int| 0 <= j < i ==> x@[j] == y@[j],
        decreases x@.len() - i,
    {
        if x[i] != y[i] {
            return false;
        }
        i = i + 1;
    }
    proof {
        assert(x@ =~= y@);
    }
    true
}

impl BookEvent {
    /// The event that a push with this `action` carries: `snapshot` and
    /// `update` are the two actions of the feed, any other text is none.
    pub fn from_action(action: &str, data: BookData) -> (r: Option<BookEvent>)
        ensures
            action@ == "snapshot"@ ==> r == Some(BookEvent::Snapshot(data)),
            action@ == "update"@ ==> r == Some(BookEvent::Update(data)),
            action@ != "snapshot"@ && action@ != "update"@ ==> r is None,
    {
        proof {
            reveal_strlit("snapshot");
            reveal_strlit("update");
            assert("snapshot"@.len() != "update"@.len());
        }
        if same_text(action, "snapshot") {
            Some(BookEvent::Snapshot(data))
        } else if same_text(action, "update") {
            Some(BookEvent::Update(data))
        } else {
            None
        }
    }

    /// The levels and sequence fields that the event carries.
    pub fn data(&self) -> (d: &BookData)
        ensures
            *d == match *self {
                BookEvent::Snapshot(x) => x,
                BookEvent::Update(x) => x,
            },
    {
        match self {
            BookEvent::Snapshot(x) => x,
            BookEvent::Update(x) => x,
        }
    }
}

} // verus!

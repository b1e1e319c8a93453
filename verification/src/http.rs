//! Shared HTTP data model: request and response payloads, methods, and the
//! immutable per-server state that handlers and middleware consult.

use vstd::prelude::*;

pub mod bytes;
pub mod encoders;
pub mod handlers;
pub mod header;
pub mod helpers;
pub mod middleware;
pub mod request;
pub mod response;
pub mod router;
pub mod status;

use crate::http::encoders::EncoderKind;
use crate::http::helpers::bytes_eq;
use crate::http::helpers::spec_assoc_find;
use crate::http::helpers::spec_assoc_insert;
use crate::http::helpers::lemma_assoc_insert_is_update;
use crate::http::helpers::lemma_assoc_find_none;

verus! {

/// Raw payload bytes of a request or response body.
#[derive(Debug)]
pub struct Body {
    pub data: Vec<u8>,
}

impl View for Body {
    type V = Seq<u8>;

    open spec fn view(&self) -> Seq<u8> {
        self.data@
    }
}

/// Request methods recognized by the parser.
#[derive(PartialEq, Eq, Structural, Clone, Copy, Debug)]
pub enum Method {
    GET,
    POST,
}

/// Model of the shared server state.
pub struct SpecState {
    pub file_dir: Option<Seq<char>>,
    pub encodings: Seq<(Seq<u8>, EncoderKind)>,
}

/// Configuration assembled before the server starts; frozen into a
/// `State` and then only read.
pub struct StateInner {
    pub file_dir: Option<String>,
    pub supported_encodings: Vec<(Vec<u8>, EncoderKind)>,
}

impl View for StateInner {
    type V = SpecState;

    open spec fn view(&self) -> SpecState {
        SpecState {
            file_dir: match self.file_dir {
                Some(d) => Some(d@),
                None => None,
            },
            encodings: Seq::new(
                self.supported_encodings@.len(),
                |i: int| (self.supported_encodings@[i].0@, self.supported_encodings@[i].1),
            ),
        }
    }
}

impl StateInner {
    /// Set the directory served by the file handlers.
    pub fn file_dir(self, dir: String) -> (r: Self)
        ensures
            r@.file_dir == Some(dir@),
            r@.encodings == self@.encodings,
    {
        let r = StateInner { file_dir: Some(dir), supported_encodings: self.supported_encodings };
        proof {
            assert(r@.encodings =~= self@.encodings);
        }
        r
    }

    /// Register the encoder for an encoding name; a name registered
    /// again takes the new encoder.
    pub fn encoding(self, encoding: Vec<u8>, encoder: EncoderKind) -> (r: Self)
        ensures
            r@.file_dir == self@.file_dir,
            r@.encodings == spec_assoc_insert(self@.encodings, encoding@, encoder),
    {
        let StateInner { file_dir, supported_encodings: mut encs } = self;
        let ghost ps = Seq::new(encs@.len(), |i: int| (encs@[i].0@, encs@[i].1));
        proof {
            assert(ps =~= self@.encodings);
        }
        let mut i: usize = encs.len();
        while i > 0
            invariant
                0 <= i <= encs@.len(),
                ps == Seq::new(encs@.len(), |k: int| (encs@[k].0@, encs@[k].1)),
                ps == self@.encodings,
                file_dir == self.file_dir,
                forall|j: int| i <= j < ps.len() ==> (#[trigger] ps[j]).0 != encoding@,
            decreases i,
        {
            i = i - 1;
            if bytes_eq(&encs[i].0, &encoding) {
                proof {
                    lemma_assoc_insert_is_update(ps, encoding@, encoder, i as int);
                }
                encs[i] = (encoding, encoder);
                let r = StateInner { file_dir, supported_encodings: encs };
                proof {
                    assert(r@.encodings =~= ps.update(i as int, (encoding@, encoder)));
                }
                return r;
            }
        }
        proof {
            lemma_assoc_find_none(ps, encoding@);
        }
        encs.push((encoding, encoder));
        let r = StateInner { file_dir, supported_encodings: encs };
        proof {
            assert(r@.encodings =~= ps.push((encoding@, encoder)));
        }
        r
    }

    /// Freeze the configuration.
    pub fn build(self) -> (r: State)
        ensures
            r@ == self@,
    {
        State(self)
    }
}

/// Immutable per-server state: the directory the file handlers serve
/// and the registry of response encoders, shared read-only by every
/// connection.
pub struct State(StateInner);

impl View for State {
    type V = SpecState;

    closed spec fn view(&self) -> SpecState {
        self.0@
    }
}

impl State {
    /// Start assembling the configuration.
    pub fn builder() -> (r: StateInner)
        ensures
            r@.file_dir is None,
            r@.encodings == Seq::<(Seq<u8>, EncoderKind)>::empty(),
    {
        let r = StateInner { file_dir: None, supported_encodings: Vec::new() };
        proof {
            assert(r@.encodings =~= Seq::<(Seq<u8>, EncoderKind)>::empty());
        }
        r
    }

    /// The directory served by the file handlers, if one was configured.
    pub fn file_dir(&self) -> (r: Option<&str>)
        ensures
            match r {
                Some(d) => self@.file_dir == Some(d@),
                None => self@.file_dir is None,
            },
    {
        match &self.0.file_dir {
            Some(d) => Some(d.as_str()),
            None => None,
        }
    }

    /// The registered encoder for an encoding name.
    pub fn encoder(&self, encoding: &Vec<u8>) -> (r: Option<EncoderKind>)
        ensures
            r == spec_assoc_find(self@.encodings, encoding@),
    {
        let encs = &self.0.supported_encodings;
        let mut i: usize = encs.len();
        proof {
            assert(self@.encodings.take(i as int) =~= self@.encodings);
        }
        while i > 0
            invariant
                0 <= i <= encs@.len(),
                encs == &self.0.supported_encodings,
                spec_assoc_find(self@.encodings, encoding@) == spec_assoc_find(
                    self@.encodings.take(i as int),
                    encoding@,
                ),
            decreases i,
        {
            i = i - 1;
            if bytes_eq(&encs[i].0, &encoding) {
                proof {
                    assert(self@.encodings.take(i as int + 1).last() == self@.encodings[i as int]);
                }
                return Some(encs[i].1);
            }
            proof {
                assert(self@.encodings.take(i as int + 1).drop_last() =~= self@.encodings.take(
                    i as int,
                ));
            }
        }
        proof {
            assert(self@.encodings.take(0) =~= Seq::<(Seq<u8>, EncoderKind)>::empty());
        }
        None
    }

    /// Whether an encoding name has a registered encoder.
    pub fn supported_encoding(&self, encoding: &Vec<u8>) -> (r: bool)
        ensures
            r == (spec_assoc_find(self@.encodings, encoding@) is Some),
    {
        match self.encoder(encoding) {
            Some(_) => true,
            None => false,
        }
    }
}

} // verus!

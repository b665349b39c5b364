//! The message: a header that names it and a body that holds one request.

use crate::error::UspError;
use crate::message::{decoded, encode_to_vec, lemma_merged_field, merge, merged, Message};
use crate::wire::{
    delimited, delimited_field, int32_field_or_none, int32_pattern, key, lemma_concat_assoc,
    lemma_delimited_field_len, lemma_parse_delimited_fits, lemma_parse_delimited_of_delimited,
    lemma_parse_int32_of_int32, lemma_parse_string_of_string, lemma_parse_unknown_fits,
    lemma_parse_varint_bounds, lemma_string_field_len, parse_delimited, parse_int32, parse_string,
    parse_unknown, put_bytes, put_int32_or_none, put_string_or_none, put_strings,
    repeated_string_field, skip_unknown, string_field_or_none, strings_view, take_bytes,
    take_int32, take_string, varint,
    WIRE_DELIMITED, WIRE_VARINT,
};
use vstd::prelude::*;
use vstd::utf8::encode_utf8;

verus! {

/// The kind of a message, which says what its body holds.
#[derive(Debug, Clone, Copy, PartialEq, Eq)]
pub enum MsgType {
    Error,
    Get,
    GetResp,
    Notify,
    SetReq,
    SetResp,
    Operate,
    OperateResp,
    Add,
    AddResp,
    Delete,
    DeleteResp,
    GetSupportedDm,
    GetSupportedDmResp,
    GetInstances,
    GetInstancesResp,
    NotifyResp,
    GetSupportedProto,
    GetSupportedProtoResp,
}

impl MsgType {
    /// The number that stands for the kind on the wire.
    pub open spec fn spec_number(self) -> i32 {
        match self {
            MsgType::Error => 0,
            MsgType::Get => 1,
            MsgType::GetResp => 2,
            MsgType::Notify => 3,
            MsgType::SetReq => 4,
            MsgType::SetResp => 5,
            MsgType::Operate => 6,
            MsgType::OperateResp => 7,
            MsgType::Add => 8,
            MsgType::AddResp => 9,
            MsgType::Delete => 10,
            MsgType::DeleteResp => 11,
            MsgType::GetSupportedDm => 12,
            MsgType::GetSupportedDmResp => 13,
            MsgType::GetInstances => 14,
            MsgType::GetInstancesResp => 15,
            MsgType::NotifyResp => 16,
            MsgType::GetSupportedProto => 17,
            MsgType::GetSupportedProtoResp => 18,
        }
    }

    /// The number that stands for the kind on the wire.
    pub fn number(self) -> (r: i32)
        ensures
            r == self.spec_number(),
    {
        match self {
            MsgType::Error => 0,
            MsgType::Get => 1,
            MsgType::GetResp => 2,
            MsgType::Notify => 3,
            MsgType::SetReq => 4,
            MsgType::SetResp => 5,
            MsgType::Operate => 6,
            MsgType::OperateResp => 7,
            MsgType::Add => 8,
            MsgType::AddResp => 9,
            MsgType::Delete => 10,
            MsgType::DeleteResp => 11,
            MsgType::GetSupportedDm => 12,
            MsgType::GetSupportedDmResp => 13,
            MsgType::GetInstances => 14,
            MsgType::GetInstancesResp => 15,
            MsgType::NotifyResp => 16,
            MsgType::GetSupportedProto => 17,
            MsgType::GetSupportedProtoResp => 18,
        }
    }

    /// The kind that `number` stands for, if it stands for one.
    pub fn from_number(number: i32) -> (r: Option<MsgType>)
        ensures
            match r {
                Some(kind) => kind.spec_number() == number,
                None => number < 0 || number > 18,
            },
    {
        match number {
            0 => Some(MsgType::Error),
            1 => Some(MsgType::Get),
            2 => Some(MsgType::GetResp),
            3 => Some(MsgType::Notify),
            4 => Some(MsgType::SetReq),
            5 => Some(MsgType::SetResp),
            6 => Some(MsgType::Operate),
            7 => Some(MsgType::OperateResp),
            8 => Some(MsgType::Add),
            9 => Some(MsgType::AddResp),
            10 => Some(MsgType::Delete),
            11 => Some(MsgType::DeleteResp),
            12 => Some(MsgType::GetSupportedDm),
            13 => Some(MsgType::GetSupportedDmResp),
            14 => Some(MsgType::GetInstances),
            15 => Some(MsgType::GetInstancesResp),
            16 => Some(MsgType::NotifyResp),
            17 => Some(MsgType::GetSupportedProto),
            18 => Some(MsgType::GetSupportedProtoResp),
            _ => None,
        }
    }
}

/// What names a message: an identifier that the sender chose, and the kind.
#[derive(Debug, PartialEq, Eq)]
pub struct Header {
    /// The identifier of the message.
    pub msg_id: String,
    /// The kind of the message, as the number of a [`MsgType`].
    pub msg_type: i32,
}

/// A [`Header`] as a mathematical value.
pub ghost struct HeaderView {
    pub msg_id: Seq<char>,
    pub msg_type: i32,
}

impl View for Header {
    type V = HeaderView;

    open spec fn view(&self) -> HeaderView {
        HeaderView { msg_id: self.msg_id@, msg_type: self.msg_type }
    }
}

impl Clone for Header {
    fn clone(&self) -> (r: Self)
        ensures
            r@ == self@,
    {
        Header { msg_id: self.msg_id.clone(), msg_type: self.msg_type }
    }
}

impl Message for Header {
    open spec fn unset() -> HeaderView {
        HeaderView { msg_id: Seq::empty(), msg_type: 0 }
    }

    open spec fn wire_bytes(v: HeaderView) -> Seq<u8> {
        string_field_or_none(1, v.msg_id) + int32_field_or_none(2, v.msg_type)
    }

    open spec fn field_merged(v: HeaderView, tag: u32, wire: u8, s: Seq<u8>) -> Option<
        (HeaderView, nat),
    > {
        if tag == 1 {
            match parse_string(wire, s) {
                Some((msg_id, n)) => Some((HeaderView { msg_id, ..v }, n)),
                None => None,
            }
        } else if tag == 2 {
            match parse_int32(wire, s) {
                Some((msg_type, n)) => Some((HeaderView { msg_type, ..v }, n)),
                None => None,
            }
        } else {
            match parse_unknown(wire, tag, s) {
                Some(n) => Some((v, n)),
                None => None,
            }
        }
    }

    proof fn lemma_field_fits(v: HeaderView, tag: u32, wire: u8, s: Seq<u8>) {
        lemma_parse_delimited_fits(wire, s);
        lemma_parse_unknown_fits(wire, tag, s);
        lemma_parse_varint_bounds(s);
    }

    fn new_unset() -> (r: Self) {
        Header { msg_id: String::new(), msg_type: 0 }
    }

    fn encode_raw(&self, buf: &mut Vec<u8>) {
        let ghost start = buf@;
        put_string_or_none(1, &self.msg_id, buf);
        put_int32_or_none(2, self.msg_type, buf);
        proof {
            lemma_concat_assoc(
                start,
                string_field_or_none(1, self@.msg_id),
                int32_field_or_none(2, self@.msg_type),
            );
        }
    }

    fn merge_field<'a>(self, tag: u32, wire: u8, data: &'a [u8]) -> (r: Result<
        (Self, &'a [u8]),
        UspError,
    >) {
        let mut header = self;
        if tag == 1 {
            match take_string(wire, data) {
                Ok((msg_id, rest)) => {
                    header.msg_id = msg_id;
                    Ok((header, rest))
                },
                Err(e) => Err(UspError::DecodeError(e)),
            }
        } else if tag == 2 {
            match take_int32(wire, data) {
                Ok((msg_type, rest)) => {
                    header.msg_type = msg_type;
                    Ok((header, rest))
                },
                Err(e) => Err(UspError::DecodeError(e)),
            }
        } else {
            match skip_unknown(wire, tag, data) {
                Ok(rest) => Ok((header, rest)),
                Err(e) => Err(UspError::DecodeError(e)),
            }
        }
    }
}

/// A header comes back from its bytes as it was.
pub proof fn lemma_header_round_trip(v: HeaderView)
    requires
        Header::wire_bytes(v).len() <= u64::MAX,
    ensures
        decoded::<Header>(Header::wire_bytes(v)) == Some(v),
{
    let none = Seq::<u8>::empty();
    let f1 = string_field_or_none(1, v.msg_id);
    let f2 = int32_field_or_none(2, v.msg_type);
    let u0 = Header::unset();
    let u1 = HeaderView { msg_id: v.msg_id, ..u0 };
    lemma_string_field_len(1, v.msg_id);
    if v.msg_id.len() == 0 {
        assert(v.msg_id =~= u0.msg_id);
        assert(f1 + f2 =~= f2);
    } else {
        lemma_parse_string_of_string(v.msg_id, f2);
        lemma_merged_field::<Header>(
            u0,
            1,
            WIRE_DELIMITED,
            delimited(encode_utf8(v.msg_id)),
            f2,
            u1,
        );
    }
    assert(merged::<Header>(u0, f1 + f2) == merged::<Header>(u1, f2));
    if v.msg_type == 0 {
    } else {
        lemma_parse_int32_of_int32(v.msg_type, none);
        lemma_merged_field::<Header>(
            u1,
            2,
            WIRE_VARINT,
            varint(int32_pattern(v.msg_type)),
            none,
            v,
        );
        assert(f2 =~= key(2, WIRE_VARINT) + varint(int32_pattern(v.msg_type)) + none);
    }
}

/// The request to read parameters: the paths of what is asked for.
#[derive(Debug, PartialEq, Eq)]
pub struct Get {
    /// The paths, in the order of the request. None at all is a request too.
    pub param_paths: Vec<String>,
}

/// A [`Get`] as a mathematical value.
pub ghost struct GetView {
    pub param_paths: Seq<Seq<char>>,
}

impl View for Get {
    type V = GetView;

    open spec fn view(&self) -> GetView {
        GetView { param_paths: strings_view(self.param_paths@) }
    }
}

impl Clone for Get {
    fn clone(&self) -> (r: Self)
        ensures
            r@ == self@,
    {
        let mut param_paths: Vec<String> = Vec::new();
        let mut i: usize = 0;
        while i < self.param_paths.len()
            invariant
                i <= self.param_paths.len(),
                param_paths@.len() == i,
                forall|j: int| 0 <= j < i ==> param_paths@[j]@ == self.param_paths@[j]@,
            decreases self.param_paths.len() - i,
        {
            param_paths.push(self.param_paths[i].clone());
            i = i + 1;
        }
        assert(strings_view(param_paths@) =~= strings_view(self.param_paths@));
        Get { param_paths }
    }
}

impl Message for Get {
    open spec fn unset() -> GetView {
        GetView { param_paths: Seq::empty() }
    }

    open spec fn wire_bytes(v: GetView) -> Seq<u8> {
        repeated_string_field(1, v.param_paths)
    }

    open spec fn field_merged(v: GetView, tag: u32, wire: u8, s: Seq<u8>) -> Option<
        (GetView, nat),
    > {
        if tag == 1 {
            match parse_string(wire, s) {
                Some((path, n)) => Some((GetView { param_paths: v.param_paths.push(path) }, n)),
                None => None,
            }
        } else {
            match parse_unknown(wire, tag, s) {
                Some(n) => Some((v, n)),
                None => None,
            }
        }
    }

    proof fn lemma_field_fits(v: GetView, tag: u32, wire: u8, s: Seq<u8>) {
        lemma_parse_delimited_fits(wire, s);
        lemma_parse_unknown_fits(wire, tag, s);
    }

    fn new_unset() -> (r: Self) {
        let get = Get { param_paths: Vec::new() };
        assert(get@.param_paths =~= Seq::empty());
        get
    }

    fn encode_raw(&self, buf: &mut Vec<u8>) {
        put_strings(1, &self.param_paths, buf);
    }

    fn merge_field<'a>(self, tag: u32, wire: u8, data: &'a [u8]) -> (r: Result<
        (Self, &'a [u8]),
        UspError,
    >) {
        let mut get = self;
        if tag == 1 {
            match take_string(wire, data) {
                Ok((path, rest)) => {
                    let ghost held = get@.param_paths;
                    get.param_paths.push(path);
                    assert(get@.param_paths =~= held.push(path@));
                    Ok((get, rest))
                },
                Err(e) => Err(UspError::DecodeError(e)),
            }
        } else {
            match skip_unknown(wire, tag, data) {
                Ok(rest) => Ok((get, rest)),
                Err(e) => Err(UspError::DecodeError(e)),
            }
        }
    }
}

/// Merging the paths of a request as they were written appends them to the
/// paths that the request holds.
proof fn lemma_get_paths_merged(held: Seq<Seq<char>>, paths: Seq<Seq<char>>)
    requires
        repeated_string_field(1, paths).len() <= u64::MAX,
    ensures
        merged::<Get>(GetView { param_paths: held }, repeated_string_field(1, paths)) == Some(
            GetView { param_paths: held + paths },
        ),
    decreases paths.len(),
{
    let none = Seq::<u8>::empty();
    if paths.len() == 0 {
        assert(held + paths =~= held);
    } else {
        let first = paths[0];
        let rest = repeated_string_field(1, paths.skip(1));
        let value = delimited(encode_utf8(first));
        lemma_delimited_field_len(1, encode_utf8(first));
        lemma_parse_string_of_string(first, rest);
        lemma_merged_field::<Get>(
            GetView { param_paths: held },
            1,
            WIRE_DELIMITED,
            value,
            rest,
            GetView { param_paths: held.push(first) },
        );
        lemma_concat_assoc(key(1, WIRE_DELIMITED), value, rest);
        lemma_get_paths_merged(held.push(first), paths.skip(1));
        assert(held.push(first) + paths.skip(1) =~= held + paths);
    }
}

/// A request to read parameters comes back from its bytes as it was.
pub proof fn lemma_get_round_trip(v: GetView)
    requires
        Get::wire_bytes(v).len() <= u64::MAX,
    ensures
        decoded::<Get>(Get::wire_bytes(v)) == Some(v),
{
    lemma_get_paths_merged(Seq::empty(), v.param_paths);
    assert(Seq::<Seq<char>>::empty() + v.param_paths =~= v.param_paths);
}

/// What a request asks for.
#[derive(Debug, PartialEq, Eq)]
pub enum ReqType {
    /// To read parameters.
    Get(Get),
}

/// A [`ReqType`] as a mathematical value.
pub ghost enum ReqTypeView {
    Get(GetView),
}

impl View for ReqType {
    type V = ReqTypeView;

    open spec fn view(&self) -> ReqTypeView {
        match self {
            ReqType::Get(get) => ReqTypeView::Get(get@),
        }
    }
}

impl Clone for ReqType {
    fn clone(&self) -> (r: Self)
        ensures
            r@ == self@,
    {
        match self {
            ReqType::Get(get) => ReqType::Get(get.clone()),
        }
    }
}

/// The view of a request type that may be absent.
pub open spec fn req_type_view(req_type: Option<ReqType>) -> Option<ReqTypeView> {
    match req_type {
        Some(t) => Some(t@),
        None => None,
    }
}

/// A request.
#[derive(Debug, PartialEq, Eq)]
pub struct Request {
    /// What is asked for, if anything.
    pub req_type: Option<ReqType>,
}

/// A [`Request`] as a mathematical value.
pub ghost struct RequestView {
    pub req_type: Option<ReqTypeView>,
}

impl View for Request {
    type V = RequestView;

    open spec fn view(&self) -> RequestView {
        RequestView { req_type: req_type_view(self.req_type) }
    }
}

impl Clone for Request {
    fn clone(&self) -> (r: Self)
        ensures
            r@ == self@,
    {
        Request {
            req_type: match &self.req_type {
                Some(t) => Some(t.clone()),
                None => None,
            },
        }
    }
}

/// The request to read parameters that a field of a request is merged into:
/// the one that the request holds, or an unset one.
pub open spec fn get_or_unset(req_type: Option<ReqTypeView>) -> GetView {
    match req_type {
        Some(ReqTypeView::Get(get)) => get,
        None => Get::unset(),
    }
}

impl Message for Request {
    open spec fn unset() -> RequestView {
        RequestView { req_type: None }
    }

    open spec fn wire_bytes(v: RequestView) -> Seq<u8> {
        match v.req_type {
            Some(ReqTypeView::Get(get)) => delimited_field(1, Get::wire_bytes(get)),
            None => Seq::empty(),
        }
    }

    open spec fn field_merged(v: RequestView, tag: u32, wire: u8, s: Seq<u8>) -> Option<
        (RequestView, nat),
    > {
        if tag == 1 {
            match parse_delimited(wire, s) {
                Some((content, n)) => match merged::<Get>(get_or_unset(v.req_type), content) {
                    Some(get) => Some((RequestView { req_type: Some(ReqTypeView::Get(get)) }, n)),
                    None => None,
                },
                None => None,
            }
        } else {
            match parse_unknown(wire, tag, s) {
                Some(n) => Some((v, n)),
                None => None,
            }
        }
    }

    proof fn lemma_field_fits(v: RequestView, tag: u32, wire: u8, s: Seq<u8>) {
        lemma_parse_delimited_fits(wire, s);
        lemma_parse_unknown_fits(wire, tag, s);
    }

    fn new_unset() -> (r: Self) {
        Request { req_type: None }
    }

    fn encode_raw(&self, buf: &mut Vec<u8>) {
        match &self.req_type {
            Some(ReqType::Get(get)) => {
                let content = encode_to_vec(get);
                put_bytes(1, &content, buf);
            },
            None => {
                assert(buf@ =~= buf@ + Seq::<u8>::empty());
            },
        }
    }

    fn merge_field<'a>(self, tag: u32, wire: u8, data: &'a [u8]) -> (r: Result<
        (Self, &'a [u8]),
        UspError,
    >) {
        if tag == 1 {
            match take_bytes(wire, data) {
                Ok((content, rest)) => {
                    let held = match self.req_type {
                        Some(ReqType::Get(get)) => get,
                        None => Get::new_unset(),
                    };
                    match merge(held, content.as_slice()) {
                        Ok(get) => Ok((Request { req_type: Some(ReqType::Get(get)) }, rest)),
                        Err(e) => Err(e),
                    }
                },
                Err(e) => Err(UspError::DecodeError(e)),
            }
        } else {
            match skip_unknown(wire, tag, data) {
                Ok(rest) => Ok((self, rest)),
                Err(e) => Err(UspError::DecodeError(e)),
            }
        }
    }
}

/// A request comes back from its bytes as it was.
pub proof fn lemma_request_round_trip(v: RequestView)
    requires
        Request::wire_bytes(v).len() <= u64::MAX,
    ensures
        decoded::<Request>(Request::wire_bytes(v)) == Some(v),
{
    let none = Seq::<u8>::empty();
    match v.req_type {
        Some(ReqTypeView::Get(get)) => {
            let content = Get::wire_bytes(get);
            lemma_delimited_field_len(1, content);
            lemma_get_round_trip(get);
            lemma_parse_delimited_of_delimited(content, none);
            lemma_merged_field::<Request>(
                Request::unset(),
                1,
                WIRE_DELIMITED,
                delimited(content),
                none,
                v,
            );
            assert(Request::wire_bytes(v) =~= key(1, WIRE_DELIMITED) + delimited(content) + none);
        },
        None => {},
    }
}

/// What the body of a message holds.
#[derive(Debug, PartialEq, Eq)]
pub enum MsgBody {
    /// A request.
    Request(Request),
}

/// A [`MsgBody`] as a mathematical value.
pub ghost enum MsgBodyView {
    Request(RequestView),
}

impl View for MsgBody {
    type V = MsgBodyView;

    open spec fn view(&self) -> MsgBodyView {
        match self {
            MsgBody::Request(request) => MsgBodyView::Request(request@),
        }
    }
}

impl Clone for MsgBody {
    fn clone(&self) -> (r: Self)
        ensures
            r@ == self@,
    {
        match self {
            MsgBody::Request(request) => MsgBody::Request(request.clone()),
        }
    }
}

/// The view of a message body that may be absent.
pub open spec fn msg_body_view(msg_body: Option<MsgBody>) -> Option<MsgBodyView> {
    match msg_body {
        Some(b) => Some(b@),
        None => None,
    }
}

/// The body of a message.
#[derive(Debug, PartialEq, Eq)]
pub struct Body {
    /// What the body holds, if anything.
    pub msg_body: Option<MsgBody>,
}

/// A [`Body`] as a mathematical value.
pub ghost struct BodyView {
    pub msg_body: Option<MsgBodyView>,
}

impl View for Body {
    type V = BodyView;

    open spec fn view(&self) -> BodyView {
        BodyView { msg_body: msg_body_view(self.msg_body) }
    }
}

impl Clone for Body {
    fn clone(&self) -> (r: Self)
        ensures
            r@ == self@,
    {
        Body {
            msg_body: match &self.msg_body {
                Some(b) => Some(b.clone()),
                None => None,
            },
        }
    }
}

/// The request that a field of a body is merged into: the one that the body
/// holds, or an unset one.
pub open spec fn request_or_unset(msg_body: Option<MsgBodyView>) -> RequestView {
    match msg_body {
        Some(MsgBodyView::Request(request)) => request,
        None => Request::unset(),
    }
}

impl Message for Body {
    open spec fn unset() -> BodyView {
        BodyView { msg_body: None }
    }

    open spec fn wire_bytes(v: BodyView) -> Seq<u8> {
        match v.msg_body {
            Some(MsgBodyView::Request(request)) => delimited_field(
                1,
                Request::wire_bytes(request),
            ),
            None => Seq::empty(),
        }
    }

    open spec fn field_merged(v: BodyView, tag: u32, wire: u8, s: Seq<u8>) -> Option<
        (BodyView, nat),
    > {
        if tag == 1 {
            match parse_delimited(wire, s) {
                Some((content, n)) => match merged::<Request>(
                    request_or_unset(v.msg_body),
                    content,
                ) {
                    Some(request) => Some(
                        (BodyView { msg_body: Some(MsgBodyView::Request(request)) }, n),
                    ),
                    None => None,
                },
                None => None,
            }
        } else {
            match parse_unknown(wire, tag, s) {
                Some(n) => Some((v, n)),
                None => None,
            }
        }
    }

    proof fn lemma_field_fits(v: BodyView, tag: u32, wire: u8, s: Seq<u8>) {
        lemma_parse_delimited_fits(wire, s);
        lemma_parse_unknown_fits(wire, tag, s);
    }

    fn new_unset() -> (r: Self) {
        Body { msg_body: None }
    }

    fn encode_raw(&self, buf: &mut Vec<u8>) {
        match &self.msg_body {
            Some(MsgBody::Request(request)) => {
                let content = encode_to_vec(request);
                put_bytes(1, &content, buf);
            },
            None => {
                assert(buf@ =~= buf@ + Seq::<u8>::empty());
            },
        }
    }

    fn merge_field<'a>(self, tag: u32, wire: u8, data: &'a [u8]) -> (r: Result<
        (Self, &'a [u8]),
        UspError,
    >) {
        if tag == 1 {
            match take_bytes(wire, data) {
                Ok((content, rest)) => {
                    let held = match self.msg_body {
                        Some(MsgBody::Request(request)) => request,
                        None => Request::new_unset(),
                    };
                    match merge(held, content.as_slice()) {
                        Ok(request) => Ok(
                            (Body { msg_body: Some(MsgBody::Request(request)) }, rest),
                        ),
                        Err(e) => Err(e),
                    }
                },
                Err(e) => Err(UspError::DecodeError(e)),
            }
        } else {
            match skip_unknown(wire, tag, data) {
                Ok(rest) => Ok((self, rest)),
                Err(e) => Err(UspError::DecodeError(e)),
            }
        }
    }
}

/// A body comes back from its bytes as it was.
pub proof fn lemma_body_round_trip(v: BodyView)
    requires
        Body::wire_bytes(v).len() <= u64::MAX,
    ensures
        decoded::<Body>(Body::wire_bytes(v)) == Some(v),
{
    let none = Seq::<u8>::empty();
    match v.msg_body {
        Some(MsgBodyView::Request(request)) => {
            let content = Request::wire_bytes(request);
            lemma_delimited_field_len(1, content);
            lemma_request_round_trip(request);
            lemma_parse_delimited_of_delimited(content, none);
            lemma_merged_field::<Body>(
                Body::unset(),
                1,
                WIRE_DELIMITED,
                delimited(content),
                none,
                v,
            );
            assert(Body::wire_bytes(v) =~= key(1, WIRE_DELIMITED) + delimited(content) + none);
        },
        None => {},
    }
}

/// A message: its header and its body. The protocol asks for both; a message
/// that lacks one can be held and encoded all the same.
#[derive(Debug, PartialEq, Eq)]
pub struct Msg {
    /// What names the message.
    pub header: Option<Header>,
    /// What the message holds.
    pub body: Option<Body>,
}

/// A [`Msg`] as a mathematical value.
pub ghost struct MsgView {
    pub header: Option<HeaderView>,
    pub body: Option<BodyView>,
}

/// The view of a header that may be absent.
pub open spec fn header_view(header: Option<Header>) -> Option<HeaderView> {
    match header {
        Some(h) => Some(h@),
        None => None,
    }
}

/// The view of a body that may be absent.
pub open spec fn body_view(body: Option<Body>) -> Option<BodyView> {
    match body {
        Some(b) => Some(b@),
        None => None,
    }
}

impl View for Msg {
    type V = MsgView;

    open spec fn view(&self) -> MsgView {
        MsgView { header: header_view(self.header), body: body_view(self.body) }
    }
}

impl Clone for Msg {
    fn clone(&self) -> (r: Self)
        ensures
            r@ == self@,
    {
        Msg {
            header: match &self.header {
                Some(h) => Some(h.clone()),
                None => None,
            },
            body: match &self.body {
                Some(b) => Some(b.clone()),
                None => None,
            },
        }
    }
}

/// The bytes of the header field of a message.
pub open spec fn header_bytes(header: Option<HeaderView>) -> Seq<u8> {
    match header {
        Some(h) => delimited_field(1, Header::wire_bytes(h)),
        None => Seq::empty(),
    }
}

/// The bytes of the body field of a message.
pub open spec fn body_bytes(body: Option<BodyView>) -> Seq<u8> {
    match body {
        Some(b) => delimited_field(2, Body::wire_bytes(b)),
        None => Seq::empty(),
    }
}

/// The header that a field of a message is merged into: the one that the
/// message holds, or an unset one.
pub open spec fn header_or_unset(header: Option<HeaderView>) -> HeaderView {
    match header {
        Some(h) => h,
        None => Header::unset(),
    }
}

/// The body that a field of a message is merged into: the one that the message
/// holds, or an unset one.
pub open spec fn body_or_unset(body: Option<BodyView>) -> BodyView {
    match body {
        Some(b) => b,
        None => Body::unset(),
    }
}

impl Message for Msg {
    open spec fn unset() -> MsgView {
        MsgView { header: None, body: None }
    }

    open spec fn wire_bytes(v: MsgView) -> Seq<u8> {
        header_bytes(v.header) + body_bytes(v.body)
    }

    open spec fn field_merged(v: MsgView, tag: u32, wire: u8, s: Seq<u8>) -> Option<
        (MsgView, nat),
    > {
        if tag == 1 {
            match parse_delimited(wire, s) {
                Some((content, n)) => match merged::<Header>(header_or_unset(v.header), content) {
                    Some(header) => Some((MsgView { header: Some(header), ..v }, n)),
                    None => None,
                },
                None => None,
            }
        } else if tag == 2 {
            match parse_delimited(wire, s) {
                Some((content, n)) => match merged::<Body>(body_or_unset(v.body), content) {
                    Some(body) => Some((MsgView { body: Some(body), ..v }, n)),
                    None => None,
                },
                None => None,
            }
        } else {
            match parse_unknown(wire, tag, s) {
                Some(n) => Some((v, n)),
                None => None,
            }
        }
    }

    proof fn lemma_field_fits(v: MsgView, tag: u32, wire: u8, s: Seq<u8>) {
        lemma_parse_delimited_fits(wire, s);
        lemma_parse_unknown_fits(wire, tag, s);
    }

    fn new_unset() -> (r: Self) {
        Msg { header: None, body: None }
    }

    fn encode_raw(&self, buf: &mut Vec<u8>) {
        let ghost start = buf@;
        match &self.header {
            Some(header) => {
                let content = encode_to_vec(header);
                put_bytes(1, &content, buf);
            },
            None => {
                assert(buf@ =~= start + Seq::<u8>::empty());
            },
        }
        let ghost middle = buf@;
        match &self.body {
            Some(body) => {
                let content = encode_to_vec(body);
                put_bytes(2, &content, buf);
            },
            None => {
                assert(buf@ =~= middle + Seq::<u8>::empty());
            },
        }
        proof {
            lemma_concat_assoc(start, header_bytes(self@.header), body_bytes(self@.body));
        }
    }

    fn merge_field<'a>(self, tag: u32, wire: u8, data: &'a [u8]) -> (r: Result<
        (Self, &'a [u8]),
        UspError,
    >) {
        let mut msg = self;
        if tag == 1 {
            match take_bytes(wire, data) {
                Ok((content, rest)) => {
                    let held = match msg.header {
                        Some(header) => header,
                        None => Header::new_unset(),
                    };
                    match merge(held, content.as_slice()) {
                        Ok(header) => {
                            msg.header = Some(header);
                            Ok((msg, rest))
                        },
                        Err(e) => Err(e),
                    }
                },
                Err(e) => Err(UspError::DecodeError(e)),
            }
        } else if tag == 2 {
            match take_bytes(wire, data) {
                Ok((content, rest)) => {
                    let held = match msg.body {
                        Some(body) => body,
                        None => Body::new_unset(),
                    };
                    match merge(held, content.as_slice()) {
                        Ok(body) => {
                            msg.body = Some(body);
                            Ok((msg, rest))
                        },
                        Err(e) => Err(e),
                    }
                },
                Err(e) => Err(UspError::DecodeError(e)),
            }
        } else {
            match skip_unknown(wire, tag, data) {
                Ok(rest) => Ok((msg, rest)),
                Err(e) => Err(UspError::DecodeError(e)),
            }
        }
    }
}

/// A message comes back from its bytes as it was.
pub proof fn lemma_msg_round_trip(v: MsgView)
    requires
        Msg::wire_bytes(v).len() <= u64::MAX,
    ensures
        decoded::<Msg>(Msg::wire_bytes(v)) == Some(v),
{
    let none = Seq::<u8>::empty();
    let f2 = body_bytes(v.body);
    let u0 = Msg::unset();
    let u1 = MsgView { header: v.header, ..u0 };
    assert(merged::<Msg>(u0, header_bytes(v.header) + f2) == merged::<Msg>(u1, f2)) by {
        match v.header {
            Some(header) => {
                let content = Header::wire_bytes(header);
                lemma_delimited_field_len(1, content);
                lemma_header_round_trip(header);
                lemma_parse_delimited_of_delimited(content, f2);
                lemma_merged_field::<Msg>(u0, 1, WIRE_DELIMITED, delimited(content), f2, u1);
            },
            None => {
                assert(header_bytes(v.header) + f2 =~= f2);
            },
        }
    }
    assert(merged::<Msg>(u1, f2) == Some(v)) by {
        match v.body {
            Some(body) => {
                let content = Body::wire_bytes(body);
                lemma_delimited_field_len(2, content);
                lemma_body_round_trip(body);
                lemma_parse_delimited_of_delimited(content, none);
                lemma_merged_field::<Msg>(u1, 2, WIRE_DELIMITED, delimited(content), none, v);
                assert(f2 =~= key(2, WIRE_DELIMITED) + delimited(content) + none);
            },
            None => {},
        }
    }
}

} // verus!

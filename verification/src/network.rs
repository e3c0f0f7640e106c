//! HTTP requests and responses as plain records: headers, bodies, and the
//! text form of a header block.
use vstd::prelude::*;
use vstd::utf8::*;
use crate::live_id::{LiveId, LiveIdCounter};

verus! {

/// One header name and the values given for it, in the order they were added.
#[derive(Debug, Clone)]
pub struct HeaderEntry {
    pub name: String,
    pub values: Vec<String>,
}

/// A header name with its values, as plain character sequences.
pub type HeaderView = (Seq<char>, Seq<Seq<char>>);

pub open spec fn strings_view(v: Seq<String>) -> Seq<Seq<char>> {
    v.map_values(|s: String| s@)
}

pub open spec fn entry_view(e: HeaderEntry) -> HeaderView {
    (e.name@, strings_view(e.values@))
}

/// Headers by name.  Each name occurs once; names keep the order in which they
/// were first added.
#[derive(Debug, Clone)]
pub struct HeaderMap {
    entries: Vec<HeaderEntry>,
}

/// No name occurs twice.
pub open spec fn distinct_names(h: Seq<HeaderView>) -> bool {
    forall|i: int, j: int| 0 <= i < h.len() && 0 <= j < h.len() && i != j ==> h[i].0 != h[j].0
}

/// The position of `name` among the headers, if it is there.
pub open spec fn name_index(h: Seq<HeaderView>, name: Seq<char>) -> Option<int> {
    if exists|i: int| 0 <= i < h.len() && h[i].0 == name {
        Some(choose|i: int| 0 <= i < h.len() && h[i].0 == name)
    } else {
        None
    }
}

/// The headers after adding `value` under `name`: appended to the values of
/// `name` if it is there, else as a new last header with that one value.
pub open spec fn header_append(h: Seq<HeaderView>, name: Seq<char>, value: Seq<char>) -> Seq<HeaderView> {
    match name_index(h, name) {
        Some(i) => h.update(i, (name, h[i].1.push(value))),
        None => h.push((name, seq![value])),
    }
}

/// The values given for `name`, if any.
pub open spec fn header_values(h: Seq<HeaderView>, name: Seq<char>) -> Option<Seq<Seq<char>>> {
    match name_index(h, name) {
        Some(i) => Some(h[i].1),
        None => None,
    }
}

/// `String::push`: appends `c` to the end of `s`.
#[verifier::external_body]
pub(crate) fn push_char(s: &mut String, c: char)
    ensures
        final(s)@ == old(s)@.push(c),
{
    s.push(c);
}

/// The values joined into one sequence, with `sep` between neighbours.
pub open spec fn join(vals: Seq<Seq<char>>, sep: Seq<char>) -> Seq<char>
    decreases vals.len(),
{
    if vals.len() == 0 {
        Seq::empty()
    } else if vals.len() == 1 {
        vals[0]
    } else {
        join(vals.drop_last(), sep) + sep + vals.last()
    }
}

/// The text form of a header block: one line `name: v1,v2,...` per header,
/// in order, each ended by `eol`.
pub open spec fn header_block(h: Seq<HeaderView>, eol: Seq<char>) -> Seq<char>
    decreases h.len(),
{
    if h.len() == 0 {
        Seq::empty()
    } else {
        header_block(h.drop_last(), eol) + h.last().0 + seq![':', ' '] + join(h.last().1, seq![',']) + eol
    }
}

/// Appends the values to `out`, separated by commas.
fn append_joined(out: &mut String, vals: &Vec<String>)
    ensures
        final(out)@ == old(out)@ + join(strings_view(vals@), seq![',']),
{
    let ghost start = out@;
    let mut i: usize = 0;
    while i < vals.len()
        invariant
            i <= vals@.len(),
            out@ == start + join(strings_view(vals@).take(i as int), seq![',']),
        decreases vals@.len() - i,
    {
        let ghost sv = strings_view(vals@);
        assert(sv.take(i + 1).drop_last() =~= sv.take(i as int));
        assert(sv.take(i + 1).last() == vals@[i as int]@);
        if i > 0 {
            push_char(out, ',');
        } else {
            assert(sv.take(0) =~= Seq::<Seq<char>>::empty());
        }
        out.append(vals[i].as_str());
        assert(out@ =~= start + join(sv.take(i + 1), seq![',']));
        i = i + 1;
    }
    assert(strings_view(vals@).take(vals@.len() as int) =~= strings_view(vals@));
}

/// `s` cut at every `sep`, as `str::split` does: the pieces between
/// separators, one more than there are separators.
pub open spec fn split_on(s: Seq<char>, sep: char) -> Seq<Seq<char>>
    decreases s.len(),
{
    if s.len() == 0 {
        seq![Seq::<char>::empty()]
    } else {
        let r = split_on(s.drop_last(), sep);
        if s.last() == sep {
            r.push(Seq::<char>::empty())
        } else {
            r.update(r.len() - 1, r.last().push(s.last()))
        }
    }
}

/// `s` with one trailing carriage return removed, if it has one.
pub open spec fn strip_cr(s: Seq<char>) -> Seq<char> {
    if s.len() > 0 && s.last() == '\r' {
        s.drop_last()
    } else {
        s
    }
}

/// Each line without a trailing carriage return.
pub open spec fn strip_cr_all(ls: Seq<Seq<char>>) -> Seq<Seq<char>> {
    ls.map_values(|l: Seq<char>| strip_cr(l))
}

/// The lines of `s`, as `str::lines` gives them: split at line feeds, a
/// carriage return dropped from the end of each line that a line feed ends,
/// and no empty last line after a final line feed.
pub open spec fn lines_of(s: Seq<char>) -> Seq<Seq<char>> {
    let p = split_on(s, '\n');
    let ended = strip_cr_all(p.drop_last());
    if p.last().len() == 0 {
        ended
    } else {
        ended.push(p.last())
    }
}

/// Every line holds a colon, so it has a name and a value part.
pub open spec fn header_lines_well_formed(s: Seq<char>) -> bool {
    forall|i: int| 0 <= i < lines_of(s).len() ==> #[trigger] lines_of(s)[i].contains(':')
}

/// The headers after adding each of `vals` under `name`, in order.
pub open spec fn add_values(h: Seq<HeaderView>, name: Seq<char>, vals: Seq<Seq<char>>) -> Seq<HeaderView>
    decreases vals.len(),
{
    if vals.len() == 0 {
        h
    } else {
        header_append(add_values(h, name, vals.drop_last()), name, vals.last())
    }
}

/// The headers after adding one line `name:values[:...]`: the name is the
/// text before the first colon, and each comma-separated piece of the text
/// between the first and the second colon is a value.
pub open spec fn add_line(h: Seq<HeaderView>, line: Seq<char>) -> Seq<HeaderView> {
    let parts = split_on(line, ':');
    add_values(h, parts[0], split_on(parts[1], ','))
}

/// The headers after adding each line in order.
pub open spec fn add_lines(h: Seq<HeaderView>, lines: Seq<Seq<char>>) -> Seq<HeaderView>
    decreases lines.len(),
{
    if lines.len() == 0 {
        h
    } else {
        add_line(add_lines(h, lines.drop_last()), lines.last())
    }
}

/// The headers a header block reads as.
pub open spec fn parse_headers(s: Seq<char>) -> Seq<HeaderView> {
    add_lines(Seq::empty(), lines_of(s))
}

pub open spec fn vecs_view(v: Seq<Vec<char>>) -> Seq<Seq<char>> {
    v.map_values(|x: Vec<char>| x@)
}

proof fn lemma_split_on_len(s: Seq<char>, sep: char)
    ensures
        split_on(s, sep).len() >= 1,
        s.contains(sep) <==> split_on(s, sep).len() >= 2,
        !s.contains(sep) ==> split_on(s, sep) == seq![s],
    decreases s.len(),
{
    if s.len() == 0 {
        assert(!s.contains(sep));
        assert(s =~= Seq::<char>::empty());
        assert(split_on(s, sep) =~= seq![s]);
    } else {
        let t = s.drop_last();
        lemma_split_on_len(t, sep);
        if s.contains(sep) && s.last() != sep {
            let i = choose|i: int| 0 <= i < s.len() && s[i] == sep;
            assert(t[i] == sep);
        }
        if t.contains(sep) {
            let i = choose|i: int| 0 <= i < t.len() && t[i] == sep;
            assert(s[i] == sep);
        }
        if s.last() == sep {
            assert(s[s.len() - 1] == sep);
        }
        if !s.contains(sep) {
            assert(!t.contains(sep));
            assert(t.push(s.last()) =~= s);
            assert(split_on(s, sep) =~= seq![s]);
        }
    }
}

/// The pieces of `s` between the occurrences of `sep`.
fn split_chars(s: &Vec<char>, sep: char) -> (r: Vec<Vec<char>>)
    ensures
        vecs_view(r@) == split_on(s@, sep),
{
    let mut out: Vec<Vec<char>> = Vec::new();
    let mut cur: Vec<char> = Vec::new();
    let mut i: usize = 0;
    assert(s@.take(0) =~= Seq::<char>::empty());
    assert(vecs_view(out@).push(cur@) =~= split_on(s@.take(0), sep));
    while i < s.len()
        invariant
            i <= s@.len(),
            vecs_view(out@).push(cur@) == split_on(s@.take(i as int), sep),
        decreases s@.len() - i,
    {
        let ghost prev = split_on(s@.take(i as int), sep);
        assert(s@.take(i + 1).drop_last() =~= s@.take(i as int));
        assert(s@.take(i + 1).last() == s@[i as int]);
        let c = s[i];
        if c == sep {
            let ghost o = out@;
            out.push(cur);
            cur = Vec::new();
            assert(vecs_view(out@) =~= vecs_view(o).push(prev.last()));
            assert(vecs_view(out@).push(cur@) =~= prev.push(Seq::<char>::empty()));
        } else {
            cur.push(c);
            assert(vecs_view(out@).push(cur@) =~= prev.update(prev.len() - 1, prev.last().push(c)));
        }
        i = i + 1;
    }
    assert(s@.take(s@.len() as int) =~= s@);
    let ghost o = out@;
    out.push(cur);
    assert(vecs_view(out@) =~= vecs_view(o).push(cur@));
    out
}

/// `v` without one trailing carriage return.
fn strip_cr_chars(v: &Vec<char>) -> (r: Vec<char>)
    ensures
        r@ == strip_cr(v@),
{
    let mut r = v.clone();
    assert(r@ =~= v@);
    let n = r.len();
    if n > 0 && r[n - 1] == '\r' {
        r.pop();
        assert(r@ =~= v@.drop_last());
    }
    r
}

/// The lines of `s`, as `lines_of` states.
fn lines_chars(s: &Vec<char>) -> (r: Vec<Vec<char>>)
    ensures
        vecs_view(r@) == lines_of(s@),
{
    let p = split_chars(s, '\n');
    proof {
        lemma_split_on_len(s@, '\n');
    }
    let ghost pv = split_on(s@, '\n');
    let n = p.len();
    let mut out: Vec<Vec<char>> = Vec::new();
    let mut i: usize = 0;
    while i + 1 < n
        invariant
            n == p@.len(),
            n >= 1,
            pv == vecs_view(p@),
            i + 1 <= n,
            vecs_view(out@) == strip_cr_all(pv.take(i as int)),
        decreases n - i,
    {
        let line = strip_cr_chars(&p[i]);
        let ghost o = out@;
        out.push(line);
        assert(pv.take(i + 1) =~= pv.take(i as int).push(pv[i as int]));
        assert(pv[i as int] == p@[i as int]@);
        assert(vecs_view(out@) =~= vecs_view(o).push(line@));
        assert(strip_cr_all(pv.take(i + 1)) =~= strip_cr_all(pv.take(i as int)).push(strip_cr(pv[i as int])));
        assert(vecs_view(out@) =~= strip_cr_all(pv.take(i + 1)));
        i = i + 1;
    }
    assert(pv.take(i as int) =~= pv.drop_last());
    if p[n - 1].len() > 0 {
        let last = p[n - 1].clone();
        assert(last@ =~= p@[n - 1]@);
        let ghost o = out@;
        out.push(last);
        assert(vecs_view(out@) =~= vecs_view(o).push(pv.last()));
    }
    out
}

/// The characters of `s`, in order.
pub(crate) fn chars_of(s: &str) -> (r: Vec<char>)
    ensures
        r@ == s@,
{
    broadcast use vstd::string::group_string_axioms;
    let mut v: Vec<char> = Vec::new();
    for c in it: s.chars()
        invariant
            v@ == it.seq().take(it.index() as int),
    {
        v.push(c);
    }
    v
}

/// The string made of the characters `v`.
fn string_of(v: &Vec<char>) -> (r: String)
    ensures
        r@ == v@,
{
    let mut out = String::new();
    let mut i: usize = 0;
    while i < v.len()
        invariant
            i <= v@.len(),
            out@ == v@.take(i as int),
        decreases v@.len() - i,
    {
        push_char(&mut out, v[i]);
        assert(v@.take(i + 1) =~= v@.take(i as int).push(v@[i as int]));
        i = i + 1;
    }
    assert(v@.take(v@.len() as int) =~= v@);
    out
}

impl View for HeaderMap {
    type V = Seq<HeaderView>;

    /// The headers in order, each name with its values.
    closed spec fn view(&self) -> Seq<HeaderView> {
        self.entries@.map_values(|e: HeaderEntry| entry_view(e))
    }
}

impl HeaderMap {
    /// The headers are consistent: no name occurs twice.
    pub open spec fn wf(self) -> bool {
        distinct_names(self@)
    }

    /// No headers.
    pub fn new() -> (r: HeaderMap)
        ensures
            r.wf(),
            r.view() == Seq::<HeaderView>::empty(),
    {
        let r = HeaderMap { entries: Vec::new() };
        assert(r.view() =~= Seq::<HeaderView>::empty());
        r
    }

    /// The number of distinct names.
    pub fn len(&self) -> (r: usize)
        ensures
            r == self.view().len(),
    {
        self.entries.len()
    }

    fn find(&self, name: &String) -> (r: Option<usize>)
        ensures
            r matches Some(i) ==> i < self.view().len() && self.view()[i as int].0 == name@,
            r is None ==> forall|i: int| 0 <= i < self.view().len() ==> self.view()[i].0 != name@,
    {
        let mut i: usize = 0;
        while i < self.entries.len()
            invariant
                i <= self.entries@.len(),
                forall|j: int| 0 <= j < i ==> self.view()[j].0 != name@,
            decreases self.entries@.len() - i,
        {
            if self.entries[i].name == *name {
                return Some(i);
            }
            i = i + 1;
        }
        None
    }

    /// The text form of the headers, each line ended by `eol`.
    pub fn to_text(&self, eol: &str) -> (r: String)
        ensures
            r@ == header_block(self.view(), eol@),
    {
        let mut out = String::new();
        let mut i: usize = 0;
        while i < self.entries.len()
            invariant
                i <= self.entries@.len(),
                out@ == header_block(self.view().take(i as int), eol@),
            decreases self.entries@.len() - i,
        {
            let ghost h = self.view();
            assert(h.take(i + 1).drop_last() =~= h.take(i as int));
            assert(h.take(i + 1).last() == entry_view(self.entries@[i as int]));
            out.append(self.entries[i].name.as_str());
            push_char(&mut out, ':');
            push_char(&mut out, ' ');
            append_joined(&mut out, &self.entries[i].values);
            out.append(eol);
            assert(out@ =~= header_block(h.take(i + 1), eol@));
            i = i + 1;
        }
        assert(self.view().take(self.entries@.len() as int) =~= self.view());
        out
    }

    /// Adds `value` under `name`, after any values already there.
    pub fn append(&mut self, name: String, value: String)
        requires
            old(self).wf(),
        ensures
            final(self).wf(),
            final(self).view() == header_append(old(self).view(), name@, value@),
    {
        let ghost h = self.view();
        match self.find(&name) {
            Some(i) => {
                assert(name_index(h, name@) == Some(i as int)) by {
                    let j = choose|j: int| 0 <= j < h.len() && h[j].0 == name@;
                    assert(j == i);
                }
                let ghost vals = self.entries@[i as int].values@;
                self.entries[i].values.push(value);
                assert(strings_view(vals.push(value)) =~= strings_view(vals).push(value@));
                assert(self.view() =~= h.update(i as int, (name@, h[i as int].1.push(value@))));
            },
            None => {
                let mut values = Vec::new();
                values.push(value);
                let e = HeaderEntry { name, values };
                let ghost pre = self.entries@;
                self.entries.push(e);
                assert(strings_view(e.values@) =~= seq![value@]);
                assert(self.view() =~= h.push(entry_view(e)));
            },
        }
    }

    /// The values given for `name`, if any.
    pub fn get(&self, name: &str) -> (r: Option<Vec<String>>)
        requires
            self.wf(),
        ensures
            r matches Some(v) ==> header_values(self.view(), name@) == Some(strings_view(v@)),
            r is None ==> header_values(self.view(), name@) is None,
    {
        let k = name.to_owned();
        match self.find(&k) {
            Some(i) => {
                let ghost h = self.view();
                assert(name_index(h, name@) == Some(i as int)) by {
                    let j = choose|j: int| 0 <= j < h.len() && h[j].0 == name@;
                    assert(j == i);
                }
                let v = self.entries[i].values.clone();
                assert(v@ =~= self.entries@[i as int].values@);
                Some(v)
            },
            None => None,
        }
    }
}

/// `String::from_utf8`: the text the bytes encode, when they are valid UTF-8.
#[verifier::external_body]
fn string_from_utf8(bytes: Vec<u8>) -> (r: Option<String>)
    ensures
        r is Some <==> valid_utf8(bytes@),
        r matches Some(s) ==> s@ == decode_utf8(bytes@),
{
    String::from_utf8(bytes).ok()
}

/// An outgoing HTTP request.
#[derive(Debug)]
pub struct HttpRequest {
    pub id: LiveId,
    pub url: String,
    pub method: String,
    pub headers: HeaderMap,
    pub body: Option<Vec<u8>>,
}

impl HttpRequest {
    /// A request for `url` with `method`, no headers and no body, and an id
    /// drawn from randomly keyed hashing (nothing is promised of it; see
    /// `new_from` for ids that are sure to differ).
    pub fn new(url: String, method: String) -> (r: HttpRequest)
        ensures
            r.url == url,
            r.method == method,
            r.headers.wf(),
            r.headers.view() == Seq::<HeaderView>::empty(),
            r.body is None,
    {
        HttpRequest { id: LiveId::unique(), url, method, headers: HeaderMap::new(), body: None }
    }

    /// A request for `url` with `method`, no headers and no body, whose id is
    /// the next one of `ids`: an id that no earlier request made from `ids`
    /// has.
    pub fn new_from(ids: &mut LiveIdCounter, url: String, method: String) -> (r: HttpRequest)
        requires
            old(ids).next_id() < u64::MAX,
        ensures
            r.id.0 == old(ids).next_id(),
            final(ids).next_id() == old(ids).next_id() + 1,
            r.url == url,
            r.method == method,
            r.headers.wf(),
            r.headers.view() == Seq::<HeaderView>::empty(),
            r.body is None,
    {
        HttpRequest { id: ids.fresh(), url, method, headers: HeaderMap::new(), body: None }
    }

    /// Adds `value` under the header `name`, after any values already there.
    pub fn set_header(&mut self, name: String, value: String)
        requires
            old(self).headers.wf(),
        ensures
            final(self).headers.wf(),
            final(self).headers.view() == header_append(old(self).headers.view(), name@, value@),
            final(self).id == old(self).id,
            final(self).url == old(self).url,
            final(self).method == old(self).method,
            final(self).body == old(self).body,
    {
        self.headers.append(name, value);
    }

    /// Sets the body to the UTF-8 bytes of `body`.
    pub fn set_body(&mut self, body: String)
        ensures
            final(self).body matches Some(b) && b@ == encode_utf8(body@),
            final(self).id == old(self).id,
            final(self).url == old(self).url,
            final(self).method == old(self).method,
            final(self).headers == old(self).headers,
    {
        let bytes = body.as_str().as_bytes_vec();
        self.body = Some(bytes);
    }

    /// The headers as text: a line `name: v1,v2,...` per header, each ended by
    /// a line feed.
    pub fn get_headers_string(&self) -> (r: String)
        ensures
            r@ == header_block(self.headers.view(), seq!['\n']),
    {
        let eol = "\n";
        proof {
            reveal_strlit("\n");
        }
        assert(eol@ =~= seq!['\n']);
        self.headers.to_text(eol)
    }
}

/// A response to an HTTP request.
#[derive(Debug, Clone)]
pub struct HttpResponse {
    pub id: LiveId,
    pub status_code: u16,
    pub headers: HeaderMap,
    pub body: Option<Vec<u8>>,
}

/// The bytes are valid UTF-8, when there are any.
pub open spec fn body_is_text(body: Option<Vec<u8>>) -> bool {
    body matches Some(b) ==> valid_utf8(b@)
}

impl HttpResponse {
    /// A response with the given id, status and body, and no headers.
    pub fn new(id: LiveId, status_code: u16, body: Option<Vec<u8>>) -> (r: HttpResponse)
        ensures
            r.id == id,
            r.status_code == status_code,
            r.body == body,
            r.headers.wf(),
            r.headers.view() == Seq::<HeaderView>::empty(),
    {
        HttpResponse { id, status_code, headers: HeaderMap::new(), body }
    }

    /// The body decoded as UTF-8 text, if there is a body.
    pub fn get_body(&self) -> (r: Option<String>)
        requires
            body_is_text(self.body),
        ensures
            self.body is None ==> r is None,
            self.body matches Some(b) ==> (r matches Some(s) && s@ == decode_utf8(b@)),
    {
        match &self.body {
            Some(body) => {
                let bytes = body.clone();
                assert(bytes@ =~= body@);
                match string_from_utf8(bytes) {
                    Some(s) => Some(s),
                    None => None,
                }
            },
            None => None,
        }
    }

    /// The headers as text: a line `name: v1,v2,...` per header, each ended by
    /// a carriage return and a line feed.
    pub fn get_headers_string(&self) -> (r: String)
        ensures
            r@ == header_block(self.headers.view(), seq!['\r', '\n']),
    {
        let eol = "\r\n";
        proof {
            reveal_strlit("\r\n");
        }
        assert(eol@ =~= seq!['\r', '\n']);
        self.headers.to_text(eol)
    }

    /// Replaces the headers with those the header block `headers_string`
    /// reads as (see `parse_headers`).
    pub fn parse_and_set_headers(&mut self, headers_string: String)
        requires
            header_lines_well_formed(headers_string@),
        ensures
            final(self).headers.wf(),
            final(self).headers.view() == parse_headers(headers_string@),
            final(self).id == old(self).id,
            final(self).status_code == old(self).status_code,
            final(self).body == old(self).body,
    {
        let cs = chars_of(headers_string.as_str());
        let ls = lines_chars(&cs);
        let ghost lv = vecs_view(ls@);
        let mut headers = HeaderMap::new();
        let mut i: usize = 0;
        assert(lv.take(0) =~= Seq::<Seq<char>>::empty());
        while i < ls.len()
            invariant
                i <= ls@.len(),
                lv == vecs_view(ls@),
                lv == lines_of(headers_string@),
                header_lines_well_formed(headers_string@),
                headers.wf(),
                headers.view() == add_lines(Seq::empty(), lv.take(i as int)),
            decreases ls@.len() - i,
        {
            let ghost line = lv[i as int];
            assert(line.contains(':'));
            let parts = split_chars(&ls[i], ':');
            proof {
                lemma_split_on_len(line, ':');
            }
            let key = string_of(&parts[0]);
            let vals = split_chars(&parts[1], ',');
            let ghost vv = vecs_view(vals@);
            let ghost h0 = headers.view();
            let mut j: usize = 0;
            assert(vv.take(0) =~= Seq::<Seq<char>>::empty());
            while j < vals.len()
                invariant
                    j <= vals@.len(),
                    vv == vecs_view(vals@),
                    headers.wf(),
                    headers.view() == add_values(h0, key@, vv.take(j as int)),
                decreases vals@.len() - j,
            {
                let v = string_of(&vals[j]);
                let k = key.clone();
                headers.append(k, v);
                assert(vv.take(j + 1).drop_last() =~= vv.take(j as int));
                j = j + 1;
            }
            assert(vv.take(vals@.len() as int) =~= vv);
            assert(lv.take(i + 1).drop_last() =~= lv.take(i as int));
            i = i + 1;
        }
        assert(lv.take(ls@.len() as int) =~= lv);
        self.headers = headers;
    }
}

/// Adding a header value appends it to that name's values (or starts them),
/// leaves every other name's values as they were, and keeps names distinct.
pub proof fn law_header_append(h: Seq<HeaderView>, name: Seq<char>, value: Seq<char>, other: Seq<char>)
    requires
        distinct_names(h),
        other != name,
    ensures
        distinct_names(header_append(h, name, value)),
        header_values(header_append(h, name, value), name) == Some(
            match header_values(h, name) {
                Some(vs) => vs.push(value),
                None => seq![value],
            },
        ),
        header_values(header_append(h, name, value), other) == header_values(h, other),
{
    let h2 = header_append(h, name, value);
    match name_index(h, name) {
        Some(i) => {
            assert(h2[i].0 == name);
            assert(name_index(h2, name) == Some(i)) by {
                let j = choose|j: int| 0 <= j < h2.len() && h2[j].0 == name;
                assert(j == i);
            }
        },
        None => {
            let n = h.len() as int;
            assert(h2[n].0 == name);
            assert(name_index(h2, name) == Some(n)) by {
                let j = choose|j: int| 0 <= j < h2.len() && h2[j].0 == name;
                if j < n {
                    assert(h[j].0 == name);
                }
            }
        },
    }
    if exists|j: int| 0 <= j < h.len() && h[j].0 == other {
        let j = choose|j: int| 0 <= j < h.len() && h[j].0 == other;
        assert(h2[j].0 == other);
        assert(name_index(h2, other) == Some(j)) by {
            let k = choose|k: int| 0 <= k < h2.len() && h2[k].0 == other;
            assert(k < h.len());
        }
    } else {
        assert forall|j: int| 0 <= j < h2.len() implies h2[j].0 != other by {
            if j < h.len() {
            }
        }
    }
}

/// A body set from a string reads back, as UTF-8, as that string.
pub proof fn law_body_round_trip(s: Seq<char>)
    ensures
        valid_utf8(encode_utf8(s)),
        decode_utf8(encode_utf8(s)) == s,
{
    encode_utf8_valid_utf8(s);
    encode_utf8_decode_utf8(s);
}

/// The values as a header line reads them back: the first one with the
/// space that follows the colon in front of it.
pub open spec fn spaced(vals: Seq<Seq<char>>) -> Seq<Seq<char>> {
    if vals.len() == 0 {
        seq![seq![' ']]
    } else {
        vals.update(0, seq![' '] + vals[0])
    }
}

/// One line of a header block, without its line end.
pub open spec fn header_line(e: HeaderView) -> Seq<char> {
    e.0 + seq![':', ' '] + join(e.1, seq![','])
}

/// A header that a header line carries unchanged: no colon or line feed in
/// the name, and no colon, comma or line feed in a value.
pub open spec fn plain_header(e: HeaderView) -> bool {
    &&& !e.0.contains(':')
    &&& !e.0.contains('\n')
    &&& forall|k: int| 0 <= k < e.1.len() ==> {
        &&& !(#[trigger] e.1[k]).contains(':')
        &&& !e.1[k].contains(',')
        &&& !e.1[k].contains('\n')
    }
}

proof fn lemma_split_on_extend(s: Seq<char>, t: Seq<char>, sep: char)
    requires
        !t.contains(sep),
    ensures
        split_on(s + t, sep) == split_on(s, sep).update(
            split_on(s, sep).len() - 1,
            split_on(s, sep).last() + t,
        ),
    decreases t.len(),
{
    lemma_split_on_len(s, sep);
    if t.len() == 0 {
        assert(s + t =~= s);
        let r = split_on(s, sep);
        assert(r.update(r.len() - 1, r.last() + t) =~= r);
    } else {
        let t0 = t.drop_last();
        assert(!t0.contains(sep)) by {
            if t0.contains(sep) {
                let i = choose|i: int| 0 <= i < t0.len() && t0[i] == sep;
                assert(t[i] == sep);
            }
        }
        assert(t.last() != sep) by {
            assert(t[t.len() - 1] == t.last());
        }
        lemma_split_on_extend(s, t0, sep);
        assert((s + t).drop_last() =~= s + t0);
        assert((s + t).last() == t.last());
        let r = split_on(s, sep);
        let r2 = split_on(s + t0, sep);
        assert(r2.len() == r.len());
        assert(r2.last() == r.last() + t0);
        assert(split_on(s + t, sep) == r2.update(r2.len() - 1, r2.last().push(t.last())));
        assert((r.last() + t0).push(t.last()) =~= r.last() + t);
        assert(split_on(s + t, sep) =~= r.update(r.len() - 1, r.last() + t));
    }
}

proof fn lemma_split_on_sep(s: Seq<char>, sep: char)
    ensures
        split_on(s.push(sep), sep) == split_on(s, sep).push(Seq::<char>::empty()),
{
    assert(s.push(sep).drop_last() =~= s);
}

proof fn lemma_join_lacks(vals: Seq<Seq<char>>, sep: char, c: char)
    requires
        sep != c,
        forall|k: int| 0 <= k < vals.len() ==> !(#[trigger] vals[k]).contains(c),
    ensures
        !join(vals, seq![sep]).contains(c),
    decreases vals.len(),
{
    if vals.len() >= 2 {
        lemma_join_lacks(vals.drop_last(), sep, c);
        let a = join(vals.drop_last(), seq![sep]);
        let l = vals.last();
        assert(!l.contains(c)) by {
            assert(vals[vals.len() - 1] == l);
        }
        if (a + seq![sep] + l).contains(c) {
            let i = choose|i: int| 0 <= i < (a + seq![sep] + l).len() && (a + seq![sep] + l)[i] == c;
            if i < a.len() {
                assert(a[i] == c);
            } else if i == a.len() {
            } else {
                assert(l[i - a.len() - 1] == c);
            }
        }
    } else if vals.len() == 1 {
        assert(!vals[0].contains(c));
    }
}

proof fn lemma_split_values(vals: Seq<Seq<char>>)
    requires
        forall|k: int| 0 <= k < vals.len() ==> !(#[trigger] vals[k]).contains(','),
    ensures
        split_on(seq![' '] + join(vals, seq![',']), ',') == spaced(vals),
    decreases vals.len(),
{
    if vals.len() == 0 {
        assert(seq![' '] + join(vals, seq![',']) =~= seq![' ']);
        assert(!seq![' '].contains(',')) by {
            assert(seq![' '][0] != ',');
        }
        lemma_split_on_len(seq![' '], ',');
    } else if vals.len() == 1 {
        let v = seq![' '] + vals[0];
        assert(!v.contains(',')) by {
            assert(!vals[0].contains(','));
            if v.contains(',') {
                let i = choose|i: int| 0 <= i < v.len() && v[i] == ',';
                assert(vals[0][i - 1] == ',');
            }
        }
        lemma_split_on_len(v, ',');
        assert(spaced(vals) =~= seq![v]);
    } else {
        let d = vals.drop_last();
        let l = vals.last();
        lemma_split_values(d);
        let a = seq![' '] + join(d, seq![',']);
        assert(seq![' '] + join(vals, seq![',']) =~= a.push(',') + l);
        assert(!l.contains(',')) by {
            assert(vals[vals.len() - 1] == l);
        }
        lemma_split_on_extend(a.push(','), l, ',');
        lemma_split_on_sep(a, ',');
        assert(Seq::<char>::empty() + l =~= l);
        assert(spaced(d).push(Seq::<char>::empty()).update(spaced(d).len() as int, l) =~= spaced(vals));
    }
}

proof fn lemma_split_line(e: HeaderView)
    requires
        plain_header(e),
    ensures
        split_on(header_line(e), ':') == seq![e.0, seq![' '] + join(e.1, seq![','])],
{
    let j = join(e.1, seq![',']);
    lemma_join_lacks(e.1, ',', ':');
    let t = seq![' '] + j;
    assert(!t.contains(':')) by {
        if t.contains(':') {
            let i = choose|i: int| 0 <= i < t.len() && t[i] == ':';
            assert(j[i - 1] == ':');
        }
    }
    assert(header_line(e) =~= e.0.push(':') + t);
    lemma_split_on_extend(e.0.push(':'), t, ':');
    lemma_split_on_sep(e.0, ':');
    lemma_split_on_len(e.0, ':');
    assert(Seq::<char>::empty() + t =~= t);
    assert(seq![e.0].push(Seq::<char>::empty()).update(1, t) =~= seq![e.0, t]);
}

/// The lines a header block is cut into at its line feeds.
spec fn crlf_lines(h: Seq<HeaderView>) -> Seq<Seq<char>> {
    h.map_values(|e: HeaderView| header_line(e).push('\r'))
}

proof fn lemma_split_block(h: Seq<HeaderView>)
    requires
        forall|i: int| 0 <= i < h.len() ==> plain_header(#[trigger] h[i]),
    ensures
        split_on(header_block(h, seq!['\r', '\n']), '\n') == crlf_lines(h).push(Seq::<char>::empty()),
    decreases h.len(),
{
    if h.len() == 0 {
        assert(header_block(h, seq!['\r', '\n']) =~= Seq::<char>::empty());
        assert(crlf_lines(h).push(Seq::<char>::empty()) =~= seq![Seq::<char>::empty()]);
    } else {
        let d = h.drop_last();
        let e = h.last();
        assert forall|i: int| 0 <= i < d.len() implies plain_header(#[trigger] d[i]) by {
            assert(d[i] == h[i]);
        }
        lemma_split_block(d);
        assert(plain_header(e)) by {
            assert(h[h.len() - 1] == e);
        }
        let line = header_line(e);
        lemma_join_lacks(e.1, ',', '\n');
        let t = line.push('\r');
        assert(!t.contains('\n')) by {
            let j = join(e.1, seq![',']);
            if t.contains('\n') {
                let i = choose|i: int| 0 <= i < t.len() && t[i] == '\n';
                if i < e.0.len() {
                    assert(e.0[i] == '\n');
                } else if i < e.0.len() + 2 {
                } else if i < line.len() {
                    assert(j[i - e.0.len() - 2] == '\n');
                }
            }
        }
        let b = header_block(d, seq!['\r', '\n']);
        assert(header_block(h, seq!['\r', '\n']) =~= (b + t).push('\n'));
        lemma_split_on_sep(b + t, '\n');
        lemma_split_on_extend(b, t, '\n');
        assert(Seq::<char>::empty() + t =~= t);
        assert(crlf_lines(d).push(Seq::<char>::empty()).update(crlf_lines(d).len() as int, t) =~= crlf_lines(h));
    }
}

proof fn lemma_block_lines(h: Seq<HeaderView>)
    requires
        forall|i: int| 0 <= i < h.len() ==> plain_header(#[trigger] h[i]),
    ensures
        lines_of(header_block(h, seq!['\r', '\n'])) == h.map_values(|e: HeaderView| header_line(e)),
{
    lemma_split_block(h);
    let p = crlf_lines(h).push(Seq::<char>::empty());
    assert(p.drop_last() =~= crlf_lines(h));
    assert forall|i: int| 0 <= i < h.len() implies strip_cr(#[trigger] crlf_lines(h)[i]) == header_line(h[i]) by {
        assert(header_line(h[i]).push('\r').drop_last() =~= header_line(h[i]));
    }
    assert(strip_cr_all(crlf_lines(h)) =~= h.map_values(|e: HeaderView| header_line(e)));
}

proof fn lemma_add_fresh(acc: Seq<HeaderView>, name: Seq<char>, vs: Seq<Seq<char>>)
    requires
        vs.len() >= 1,
        forall|i: int| 0 <= i < acc.len() ==> (#[trigger] acc[i]).0 != name,
    ensures
        add_values(acc, name, vs) == acc.push((name, vs)),
    decreases vs.len(),
{
    if vs.len() == 1 {
        assert(vs.drop_last() =~= Seq::<Seq<char>>::empty());
        assert(add_values(acc, name, vs.drop_last()) == acc);
        assert(name_index(acc, name) is None);
        assert(seq![vs.last()] =~= vs);
    } else {
        lemma_add_fresh(acc, name, vs.drop_last());
        let a = acc.push((name, vs.drop_last()));
        let n = acc.len() as int;
        assert(a[n].0 == name);
        assert(name_index(a, name) == Some(n)) by {
            let j = choose|j: int| 0 <= j < a.len() && a[j].0 == name;
            if j < n {
                assert(a[j] == acc[j]);
            }
        }
        assert(vs.drop_last().push(vs.last()) =~= vs);
        assert(a.update(n, (name, vs.drop_last().push(vs.last()))) =~= acc.push((name, vs)));
    }
}

/// The headers as a header block reads them back.
pub open spec fn read_back(h: Seq<HeaderView>) -> Seq<HeaderView> {
    h.map_values(|e: HeaderView| (e.0, spaced(e.1)))
}

proof fn lemma_add_lines(h: Seq<HeaderView>)
    requires
        distinct_names(h),
        forall|i: int| 0 <= i < h.len() ==> plain_header(#[trigger] h[i]),
    ensures
        add_lines(Seq::empty(), h.map_values(|e: HeaderView| header_line(e))) == read_back(h),
    decreases h.len(),
{
    let ls = h.map_values(|e: HeaderView| header_line(e));
    if h.len() == 0 {
        assert(read_back(h) =~= Seq::<HeaderView>::empty());
    } else {
        let d = h.drop_last();
        let e = h.last();
        assert forall|i: int| 0 <= i < d.len() implies plain_header(#[trigger] d[i]) by {
            assert(d[i] == h[i]);
        }
        lemma_add_lines(d);
        assert(ls.drop_last() =~= d.map_values(|e: HeaderView| header_line(e)));
        assert(ls.last() == header_line(e));
        assert(plain_header(e)) by {
            assert(h[h.len() - 1] == e);
        }
        lemma_split_line(e);
        assert forall|k: int| 0 <= k < e.1.len() implies !(#[trigger] e.1[k]).contains(',') by {}
        lemma_split_values(e.1);
        let acc = read_back(d);
        assert forall|i: int| 0 <= i < acc.len() implies (#[trigger] acc[i]).0 != e.0 by {
            assert(acc[i].0 == d[i].0);
            assert(d[i] == h[i]);
        }
        lemma_add_fresh(acc, e.0, spaced(e.1));
        assert(acc.push((e.0, spaced(e.1))) =~= read_back(h));
    }
}

/// A response's header block, read back, gives its headers again, but for a
/// space in front of each name's first value (the one after `name:`), as
/// long as names hold no colon or line feed and values no colon, comma or
/// line feed.  Every line of such a block holds a colon.
pub proof fn law_headers_round_trip(h: Seq<HeaderView>)
    requires
        distinct_names(h),
        forall|i: int| 0 <= i < h.len() ==> plain_header(#[trigger] h[i]),
    ensures
        header_lines_well_formed(header_block(h, seq!['\r', '\n'])),
        parse_headers(header_block(h, seq!['\r', '\n'])) == read_back(h),
{
    lemma_block_lines(h);
    lemma_add_lines(h);
    let ls = lines_of(header_block(h, seq!['\r', '\n']));
    assert forall|i: int| 0 <= i < ls.len() implies #[trigger] ls[i].contains(':') by {
        assert(ls[i] == header_line(h[i]));
        assert(ls[i][h[i].0.len() as int] == ':');
    }
}

/// The round trip of a response's own headers: the text `get_headers_string`
/// gives, handed to `parse_and_set_headers`, sets the same names with the same
/// values, the first of each with a space in front, when names hold no colon
/// or line feed and values no colon, comma or line feed.
pub proof fn law_response_headers_round_trip(r: HttpResponse)
    requires
        r.headers.wf(),
        forall|i: int| 0 <= i < r.headers@.len() ==> plain_header(#[trigger] r.headers@[i]),
    ensures
        header_lines_well_formed(header_block(r.headers@, seq!['\r', '\n'])),
        parse_headers(header_block(r.headers@, seq!['\r', '\n'])) == read_back(r.headers@),
        distinct_names(read_back(r.headers@)),
{
    law_headers_round_trip(r.headers@);
    let h = r.headers@;
    assert forall|i: int, j: int| 0 <= i < read_back(h).len() && 0 <= j < read_back(h).len() && i != j
        implies read_back(h)[i].0 != read_back(h)[j].0 by {
        assert(read_back(h)[i].0 == h[i].0);
        assert(read_back(h)[j].0 == h[j].0);
    }
}

} // verus!

//! A minimal DNS client message format: the AAAA query that the proxy sends
//! to an overlay DNS server, and the reader of its answer.
use vstd::prelude::*;
use vstd::string::StringSliceAdditionalSpecFns;

verus! {

/// Why a DNS query could not be built.
#[derive(Clone, Copy, Debug, PartialEq, Eq, Structural)]
pub enum DnsError {
    /// An empty label or a label longer than 63 bytes.
    InvalidName,
}

/// The byte of `.`.
pub open spec fn dot() -> u8 {
    0x2e
}

/// `str::trim_end_matches('.')` on the UTF-8 bytes of a name.
pub open spec fn trim_trailing_dots(s: Seq<u8>) -> Seq<u8>
    decreases s.len(),
{
    if s.len() > 0 && s.last() == dot() {
        trim_trailing_dots(s.drop_last())
    } else {
        s
    }
}

/// `i` is the position of the first `.` in `s`.
pub open spec fn is_first_dot(s: Seq<u8>, i: int) -> bool {
    &&& 0 <= i < s.len()
    &&& s[i] == dot()
    &&& forall|j: int| 0 <= j < i ==> s[j] != dot()
}

/// `str::split('.')` on the UTF-8 bytes of a name.
pub open spec fn split_dots(s: Seq<u8>) -> Seq<Seq<u8>>
    decreases s.len(),
{
    if exists|i: int| is_first_dot(s, i) {
        let i = choose|i: int| is_first_dot(s, i);
        seq![s.take(i)] + split_dots(s.skip(i + 1))
    } else {
        seq![s]
    }
}

/// The labels of a domain name.
pub open spec fn dns_labels(name: Seq<u8>) -> Seq<Seq<u8>> {
    split_dots(trim_trailing_dots(name))
}

/// A label that a query can carry: one to 63 bytes.
pub open spec fn valid_label(label: Seq<u8>) -> bool {
    1 <= label.len() <= 63
}

/// Every label is one that a query can carry.
pub open spec fn valid_labels(labels: Seq<Seq<u8>>) -> bool {
    forall|i: int| 0 <= i < labels.len() ==> valid_label(#[trigger] labels[i])
}

/// Each label as its length byte followed by its bytes.
pub open spec fn encode_labels(labels: Seq<Seq<u8>>) -> Seq<u8>
    decreases labels.len(),
{
    if labels.len() == 0 {
        seq![]
    } else {
        encode_labels(labels.drop_last()) + seq![labels.last().len() as u8] + labels.last()
    }
}

/// The twelve-byte header of a standard query with recursion desired, one
/// question and `answers` answers.
pub open spec fn dns_header(id: u16, answers: u16) -> Seq<u8> {
    seq![
        (id / 256) as u8,
        (id % 256) as u8,
        1u8,
        0u8,
        0u8,
        1u8,
        (answers / 256) as u8,
        (answers % 256) as u8,
        0u8,
        0u8,
        0u8,
        0u8,
    ]
}

/// The question section asking for the AAAA record of a name.
pub open spec fn aaaa_question(labels: Seq<Seq<u8>>) -> Seq<u8> {
    encode_labels(labels) + seq![0u8, 0u8, 28u8, 0u8, 1u8]
}

/// The AAAA query for a domain, or `None` where one of its labels is empty or
/// longer than 63 bytes.
pub open spec fn spec_aaaa_query(id: u16, name: Seq<u8>) -> Option<Seq<u8>> {
    let labels = dns_labels(name);
    if valid_labels(labels) {
        Some(dns_header(id, 0) + aaaa_question(labels))
    } else {
        None
    }
}

proof fn lemma_split_first_dot(s: Seq<u8>, i: int)
    requires
        is_first_dot(s, i),
    ensures
        split_dots(s) == seq![s.take(i)] + split_dots(s.skip(i + 1)),
{
    let k = choose|k: int| is_first_dot(s, k);
    assert(k == i) by {
        if k < i {
            assert(s[k] != dot());
        }
        if k > i {
            assert(s[i] != dot());
        }
    }
}

/// The labels of `name`, split at the dots after dropping trailing dots.
fn labels_of(name: &[u8]) -> (r: Vec<Vec<u8>>)
    ensures
        r@.map_values(|l: Vec<u8>| l@) == dns_labels(name@),
{
    let mut end: usize = name.len();
    assert(name@.take(end as int) =~= name@);
    while end > 0 && name[end - 1] == 0x2e
        invariant
            end <= name@.len(),
            trim_trailing_dots(name@) == trim_trailing_dots(name@.take(end as int)),
        decreases end,
    {
        assert(name@.take(end as int).drop_last() =~= name@.take(end - 1));
        end = end - 1;
    }
    let ghost trimmed = name@.take(end as int);
    assert(trim_trailing_dots(trimmed) == trimmed);
    let mut out: Vec<Vec<u8>> = Vec::new();
    let mut start: usize = 0;
    let mut i: usize = 0;
    assert(trimmed.skip(0) =~= trimmed);
    assert(out@.map_values(|l: Vec<u8>| l@) =~= Seq::<Seq<u8>>::empty());
    while i < end
        invariant
            end <= name@.len(),
            trimmed == name@.take(end as int),
            trim_trailing_dots(name@) == trimmed,
            start <= i <= end,
            split_dots(trimmed) == out@.map_values(|l: Vec<u8>| l@) + split_dots(
                trimmed.skip(start as int),
            ),
            forall|j: int| start <= j < i ==> trimmed[j] != dot(),
        decreases end - i,
    {
        if name[i] == 0x2e {
            let ghost rest = trimmed.skip(start as int);
            proof {
                assert forall|j: int| 0 <= j < i - start implies rest[j] != dot() by {
                    assert(trimmed[start + j] != dot());
                }
                assert(is_first_dot(rest, i - start));
                lemma_split_first_dot(rest, i - start);
                assert(rest.take(i - start) =~= name@.subrange(start as int, i as int));
                assert(rest.skip(i - start + 1) =~= trimmed.skip(i + 1));
            }
            let label = crate::text::slice_range(name, start, i);
            let ghost before = out@.map_values(|l: Vec<u8>| l@);
            out.push(label);
            assert(out@.map_values(|l: Vec<u8>| l@) =~= before.push(label@));
            assert(split_dots(trimmed) =~= out@.map_values(|l: Vec<u8>| l@) + split_dots(
                trimmed.skip(i + 1),
            ));
            i = i + 1;
            start = i;
        } else {
            i = i + 1;
        }
    }
    let ghost rest = trimmed.skip(start as int);
    assert(!exists|k: int| is_first_dot(rest, k)) by {
        if exists|k: int| is_first_dot(rest, k) {
            let k = choose|k: int| is_first_dot(rest, k);
            assert(trimmed[start + k] == dot());
        }
    }
    let last = crate::text::slice_range(name, start, end);
    assert(last@ =~= rest);
    let ghost before = out@.map_values(|l: Vec<u8>| l@);
    out.push(last);
    assert(out@.map_values(|l: Vec<u8>| l@) =~= before.push(last@));
    assert(split_dots(trimmed) =~= out@.map_values(|l: Vec<u8>| l@));
    out
}

/// Builds the query for the AAAA record of `domain` with the message id `id`:
/// a header asking one recursive question, the domain's labels, and the
/// AAAA type and Internet class.
pub fn build_aaaa_query(id: u16, domain: &str) -> (r: Result<Vec<u8>, DnsError>)
    ensures
        match r {
            Ok(packet) => spec_aaaa_query(id, domain.spec_bytes()) == Some(packet@),
            Err(e) => e == DnsError::InvalidName && spec_aaaa_query(
                id,
                domain.spec_bytes(),
            ).is_none(),
        },
{
    let name = domain.as_bytes();
    let labels = labels_of(name);
    let ghost lv = labels@.map_values(|l: Vec<u8>| l@);
    let mut packet: Vec<u8> = Vec::with_capacity(512);
    let hi: u8 = (id / 256) as u8;
    let lo: u8 = (id % 256) as u8;
    packet.push(hi);
    packet.push(lo);
    packet.push(1);
    packet.push(0);
    packet.push(0);
    packet.push(1);
    packet.push(0);
    packet.push(0);
    packet.push(0);
    packet.push(0);
    packet.push(0);
    packet.push(0);
    assert(packet@ =~= dns_header(id, 0));
    let mut k: usize = 0;
    assert(lv.take(0) =~= Seq::<Seq<u8>>::empty());
    while k < labels.len()
        invariant
            lv == labels@.map_values(|l: Vec<u8>| l@),
            lv == dns_labels(name@),
            name@ == domain.spec_bytes(),
            k <= labels@.len(),
            packet@ == dns_header(id, 0) + encode_labels(lv.take(k as int)),
            forall|j: int| 0 <= j < k ==> valid_label(#[trigger] lv[j]),
        decreases labels.len() - k,
    {
        let label = &labels[k];
        if label.len() == 0 || label.len() > 63 {
            assert(!valid_label(lv[k as int]));
            return Err(DnsError::InvalidName);
        }
        let ghost before = packet@;
        packet.push(label.len() as u8);
        let mut j: usize = 0;
        while j < label.len()
            invariant
                j <= label@.len(),
                packet@ == before + seq![label@.len() as u8] + label@.take(j as int),
            decreases label.len() - j,
        {
            packet.push(label[j]);
            j = j + 1;
            assert(packet@ =~= before + seq![label@.len() as u8] + label@.take(j as int));
        }
        assert(label@.take(j as int) =~= label@);
        assert(lv.take(k + 1).drop_last() =~= lv.take(k as int));
        assert(lv[k as int] == label@);
        k = k + 1;
        assert(packet@ =~= dns_header(id, 0) + encode_labels(lv.take(k as int)));
    }
    assert(lv.take(k as int) =~= lv);
    packet.push(0);
    packet.push(0);
    packet.push(28);
    packet.push(0);
    packet.push(1);
    assert(packet@ =~= dns_header(id, 0) + aaaa_question(lv));
    Ok(packet)
}

/// Where the name that starts at `offset` ends: a length byte below 64
/// introduces a label, 192 or more a two-byte compression pointer, zero the
/// end of the name; anything else, or running past the packet, fails.
pub open spec fn skip_name(p: Seq<u8>, offset: int) -> Option<int>
    decreases p.len() - offset,
{
    if offset < 0 || offset >= p.len() {
        None
    } else {
        let length = p[offset];
        if length == 0 {
            Some(offset + 1)
        } else if length >= 192 {
            if offset + 2 <= p.len() {
                Some(offset + 2)
            } else {
                None
            }
        } else if length >= 64 {
            None
        } else if offset + 1 + length > p.len() {
            None
        } else {
            skip_name(p, offset + 1 + length)
        }
    }
}

/// Moves `offset` past the name that starts there; `None` where the name is
/// malformed or runs past the packet.
pub fn skip_dns_name(packet: &[u8], offset: &mut usize) -> (r: Option<()>)
    ensures
        r.is_some() == skip_name(packet@, *old(offset) as int).is_some(),
        r.is_some() ==> *final(offset) as int == skip_name(packet@, *old(offset) as int).unwrap(),
{
    let ghost start = *old(offset) as int;
    let n = packet.len();
    loop
        invariant
            n == packet@.len(),
            start == *old(offset) as int,
            skip_name(packet@, start) == skip_name(packet@, *offset as int),
        decreases packet@.len() - *offset,
    {
        if *offset >= packet.len() {
            return None;
        }
        let length = packet[*offset];
        *offset = *offset + 1;
        if length == 0 {
            return Some(());
        }
        assert(length & 0xc0 == 0xc0 <==> length >= 192) by (bit_vector);
        if length & 0xc0 == 0xc0 {
            match offset.checked_add(1) {
                Some(next) => {
                    *offset = next;
                },
                None => {
                    return None;
                },
            }
            if *offset <= packet.len() {
                return Some(());
            } else {
                return None;
            }
        }
        assert(length & 0xc0 != 0xc0 ==> (length & 0xc0 != 0 <==> 64 <= length < 192))
            by (bit_vector);
        if length & 0xc0 != 0 {
            return None;
        }
        match offset.checked_add(length as usize) {
            Some(next) => {
                *offset = next;
            },
            None => {
                return None;
            },
        }
        if *offset > packet.len() {
            return None;
        }
    }
}

/// A big-endian 16-bit field.
pub open spec fn be16(p: Seq<u8>, i: int) -> int {
    p[i] * 256 + p[i + 1]
}

/// Where `count` questions that start at `offset` end.
pub open spec fn skip_questions(p: Seq<u8>, offset: int, count: nat) -> Option<int>
    decreases count,
{
    if count == 0 {
        Some(offset)
    } else {
        match skip_name(p, offset) {
            None => None,
            Some(end) => if end + 4 > p.len() {
                None
            } else {
                skip_questions(p, end + 4, (count - 1) as nat)
            },
        }
    }
}

/// The address of the first Internet-class AAAA record among `count` answer
/// records that start at `offset`.
pub open spec fn find_aaaa(p: Seq<u8>, offset: int, count: nat) -> Option<Seq<u8>>
    decreases count,
{
    if count == 0 {
        None
    } else {
        match skip_name(p, offset) {
            None => None,
            Some(end) => if end + 10 > p.len() {
                None
            } else {
                let data = end + 10;
                let length = be16(p, end + 8);
                if data + length > p.len() {
                    None
                } else if be16(p, end) == 28 && be16(p, end + 2) == 1 && length == 16 {
                    Some(p.subrange(data, data + 16))
                } else {
                    find_aaaa(p, data + length, (count - 1) as nat)
                }
            },
        }
    }
}

/// The address that a response with message id `id` gives: the first AAAA
/// answer after its questions.
pub open spec fn spec_parse_aaaa(id: u16, p: Seq<u8>) -> Option<Seq<u8>> {
    if p.len() < 12 || be16(p, 0) != id {
        None
    } else {
        match skip_questions(p, 12, be16(p, 4) as nat) {
            None => None,
            Some(offset) => find_aaaa(p, offset, be16(p, 6) as nat),
        }
    }
}

fn read_be16(p: &[u8], i: usize) -> (r: usize)
    requires
        i + 1 < p@.len(),
    ensures
        r == be16(p@, i as int),
{
    (p[i] as usize) * 256 + (p[i + 1] as usize)
}

/// Reads the IPv6 address of the first AAAA answer of a response to the
/// query with message id `id`.
pub fn parse_aaaa_response(id: u16, packet: &[u8]) -> (r: Option<[u8; 16]>)
    ensures
        match r {
            Some(a) => spec_parse_aaaa(id, packet@) == Some(a@),
            None => spec_parse_aaaa(id, packet@).is_none(),
        },
{
    if packet.len() < 12 || read_be16(packet, 0) != id as usize {
        return None;
    }
    let n = packet.len();
    let questions = read_be16(packet, 4);
    let answers = read_be16(packet, 6);
    let mut offset: usize = 12;
    let mut i: usize = 0;
    while i < questions
        invariant
            n == packet@.len(),
            packet@.len() >= 12,
            i <= questions,
            answers == be16(packet@, 6),
            spec_parse_aaaa(id, packet@) == match skip_questions(
                packet@,
                offset as int,
                (questions - i) as nat,
            ) {
                None => None,
                Some(o) => find_aaaa(packet@, o, answers as nat),
            },
        decreases questions - i,
    {
        if skip_dns_name(packet, &mut offset).is_none() {
            return None;
        }
        match offset.checked_add(4) {
            Some(next) => {
                offset = next;
            },
            None => {
                return None;
            },
        }
        if offset > packet.len() {
            return None;
        }
        i = i + 1;
    }
    let mut k: usize = 0;
    while k < answers
        invariant
            n == packet@.len(),
            k <= answers,
            spec_parse_aaaa(id, packet@) == find_aaaa(
                packet@,
                offset as int,
                (answers - k) as nat,
            ),
        decreases answers - k,
    {
        if skip_dns_name(packet, &mut offset).is_none() {
            return None;
        }
        let data = match offset.checked_add(10) {
            Some(data) => data,
            None => {
                return None;
            },
        };
        if data > packet.len() {
            return None;
        }
        let record_type = read_be16(packet, offset);
        let class = read_be16(packet, offset + 2);
        let length = read_be16(packet, offset + 8);
        let end = match data.checked_add(length) {
            Some(end) => end,
            None => {
                return None;
            },
        };
        if end > packet.len() {
            return None;
        }
        if record_type == 28 && class == 1 && length == 16 {
            let mut address = [0u8; 16];
            let mut j: usize = 0;
            while j < 16
                invariant
                    n == packet@.len(),
                    data + 16 <= packet@.len(),
                    j <= 16,
                    forall|q: int| 0 <= q < j ==> address[q] == packet@[data + q],
                decreases 16 - j,
            {
                address[j] = packet[data + j];
                j = j + 1;
            }
            assert(address@ =~= packet@.subrange(data as int, data + 16));
            return Some(address);
        }
        offset = end;
        k = k + 1;
    }
    None
}


/// An answer record that points back at the question's name and carries an
/// AAAA address of the Internet class.
pub open spec fn aaaa_answer(ttl: Seq<u8>, address: Seq<u8>) -> Seq<u8> {
    seq![0xc0u8, 0x0cu8, 0u8, 28u8, 0u8, 1u8] + ttl + seq![0u8, 16u8] + address
}

/// The response to the AAAA query for `labels` that carries one answer.
pub open spec fn aaaa_response(
    id: u16,
    labels: Seq<Seq<u8>>,
    ttl: Seq<u8>,
    address: Seq<u8>,
) -> Seq<u8> {
    dns_header(id, 1) + aaaa_question(labels) + aaaa_answer(ttl, address)
}

proof fn lemma_encode_labels_front(labels: Seq<Seq<u8>>)
    requires
        labels.len() > 0,
    ensures
        encode_labels(labels) == seq![labels[0].len() as u8] + labels[0] + encode_labels(
            labels.drop_first(),
        ),
    decreases labels.len(),
{
    if labels.len() == 1 {
        assert(labels.drop_last() =~= Seq::<Seq<u8>>::empty());
        assert(labels.drop_first() =~= Seq::<Seq<u8>>::empty());
        assert(encode_labels(labels.drop_last()) =~= Seq::<u8>::empty());
        assert(encode_labels(labels.drop_first()) =~= Seq::<u8>::empty());
        assert(labels.last() == labels[0]);
        assert(encode_labels(labels) =~= seq![labels[0].len() as u8] + labels[0]);
    } else {
        lemma_encode_labels_front(labels.drop_last());
        assert(labels.drop_last().drop_first() =~= labels.drop_first().drop_last());
        assert(labels.drop_last()[0] == labels[0]);
        assert(labels.drop_first().last() == labels.last());
        assert(encode_labels(labels) =~= seq![labels[0].len() as u8] + labels[0]
            + encode_labels(labels.drop_first()));
    }
}

proof fn lemma_skip_encoded_name(p: Seq<u8>, offset: int, labels: Seq<Seq<u8>>)
    requires
        valid_labels(labels),
        0 <= offset,
        offset + encode_labels(labels).len() < p.len(),
        p.subrange(offset, offset + encode_labels(labels).len()) == encode_labels(labels),
        p[offset + encode_labels(labels).len()] == 0,
    ensures
        skip_name(p, offset) == Some(offset + encode_labels(labels).len() + 1),
    decreases labels.len(),
{
    if labels.len() == 0 {
    } else {
        lemma_encode_labels_front(labels);
        let first = labels[0];
        let rest = labels.drop_first();
        let enc = encode_labels(labels);
        assert(valid_label(labels[0]));
        assert(p[offset] == enc[0]);
        let next = offset + 1 + first.len();
        assert(encode_labels(rest).len() == enc.len() - 1 - first.len());
        assert forall|i: int| 0 <= i < rest.len() implies valid_label(#[trigger] rest[i]) by {
            assert(rest[i] == labels[i + 1]);
        }
        assert(p.subrange(next, next + encode_labels(rest).len()) =~= encode_labels(rest)) by {
            assert forall|i: int| 0 <= i < encode_labels(rest).len() implies p.subrange(
                next,
                next + encode_labels(rest).len(),
            )[i] == encode_labels(rest)[i] by {
                assert(p[next + i] == p.subrange(offset, offset + enc.len())[1 + first.len()
                    + i]);
            }
        }
        lemma_skip_encoded_name(p, next, rest);
    }
}

/// The question of every query that `build_aaaa_query` makes can be read
/// back: it ends where the packet ends.
pub proof fn lemma_query_question_is_readable(id: u16, domain: Seq<u8>)
    requires
        spec_aaaa_query(id, domain).is_some(),
    ensures
        ({
            let q = spec_aaaa_query(id, domain).unwrap();
            &&& q.len() >= 12
            &&& be16(q, 0) == id
            &&& be16(q, 4) == 1
            &&& be16(q, 6) == 0
            &&& skip_questions(q, 12, 1) == Some(q.len() as int)
        }),
{
    let labels = dns_labels(domain);
    let q = spec_aaaa_query(id, domain).unwrap();
    let enc = encode_labels(labels);
    assert(q =~= dns_header(id, 0) + enc + seq![0u8, 0u8, 28u8, 0u8, 1u8]);
    assert(q.subrange(12, 12 + enc.len() as int) =~= enc);
    lemma_skip_encoded_name(q, 12, labels);
    assert(skip_questions(q, q.len() as int, 0) == Some(q.len() as int));
}

/// A response that repeats the question of an AAAA query and carries one
/// AAAA answer is read back to that answer's address.
pub proof fn lemma_response_reads_back(id: u16, domain: Seq<u8>, ttl: Seq<u8>, address: Seq<u8>)
    requires
        spec_aaaa_query(id, domain).is_some(),
        ttl.len() == 4,
        address.len() == 16,
    ensures
        spec_parse_aaaa(id, aaaa_response(id, dns_labels(domain), ttl, address)) == Some(
            address,
        ),
{
    let labels = dns_labels(domain);
    let enc = encode_labels(labels);
    let p = aaaa_response(id, labels, ttl, address);
    let qend: int = 12 + enc.len() as int + 5;
    assert(p =~= dns_header(id, 1) + enc + seq![0u8, 0u8, 28u8, 0u8, 1u8] + aaaa_answer(
        ttl,
        address,
    ));
    assert(p.subrange(12, 12 + enc.len() as int) =~= enc);
    lemma_skip_encoded_name(p, 12, labels);
    assert(skip_questions(p, qend, 0) == Some(qend));
    assert(skip_questions(p, 12, 1) == Some(qend));
    assert(p[qend] == 0xc0u8);
    assert(skip_name(p, qend) == Some(qend + 2));
    assert(be16(p, qend + 2) == 28);
    assert(be16(p, qend + 4) == 1);
    assert(be16(p, qend + 10) == 16);
    assert(p.subrange(qend + 12, qend + 28) =~= address);
}

/// An answer record whose name points back at the question, with the given
/// type, class, time to live and data.
pub open spec fn answer_record(rtype: u16, class: u16, ttl: Seq<u8>, data: Seq<u8>) -> Seq<u8> {
    seq![0xc0u8, 0x0cu8, (rtype / 256) as u8, (rtype % 256) as u8, (class / 256) as u8, (class % 256) as u8]
        + ttl + seq![(data.len() / 256) as u8, (data.len() % 256) as u8] + data
}

/// A record that does not carry an Internet-class IPv6 address: another
/// type, another class, or data that is not 16 bytes long.
pub open spec fn not_an_address(record: (u16, u16, Seq<u8>)) -> bool {
    &&& record.2.len() < 65536
    &&& !(record.0 == 28 && record.1 == 1 && record.2.len() == 16)
}

/// The records, one after the other.
pub open spec fn answer_records(ttl: Seq<u8>, records: Seq<(u16, u16, Seq<u8>)>) -> Seq<u8>
    decreases records.len(),
{
    if records.len() == 0 {
        seq![]
    } else {
        answer_record(records[0].0, records[0].1, ttl, records[0].2) + answer_records(
            ttl,
            records.drop_first(),
        )
    }
}

proof fn lemma_skip_answer_records(
    p: Seq<u8>,
    offset: int,
    ttl: Seq<u8>,
    records: Seq<(u16, u16, Seq<u8>)>,
    count: nat,
)
    requires
        ttl.len() == 4,
        forall|i: int| 0 <= i < records.len() ==> not_an_address(#[trigger] records[i]),
        0 <= offset,
        offset + answer_records(ttl, records).len() <= p.len(),
        p.subrange(offset, offset + answer_records(ttl, records).len()) == answer_records(
            ttl,
            records,
        ),
        count >= records.len(),
    ensures
        find_aaaa(p, offset, count) == find_aaaa(
            p,
            offset + answer_records(ttl, records).len(),
            (count - records.len()) as nat,
        ),
    decreases records.len(),
{
    if records.len() > 0 {
        let r = records[0];
        let rec = answer_record(r.0, r.1, ttl, r.2);
        let rest = records.drop_first();
        let all = answer_records(ttl, records);
        assert(all == rec + answer_records(ttl, rest));
        assert(not_an_address(r));
        assert forall|k: int| 0 <= k < rec.len() implies p[offset + k] == rec[k] by {
            assert(p.subrange(offset, offset + all.len())[k] == all[k]);
        }
        assert(p[offset] == 0xc0u8) by {
            assert(p[offset + 0] == rec[0]);
        }
        assert(skip_name(p, offset) == Some(offset + 2));
        let end = offset + 2;
        assert(p[end] == rec[2] && p[end + 1] == rec[3]);
        assert(be16(p, end) == r.0) by {
            assert(rec[2] == (r.0 / 256) as u8 && rec[3] == (r.0 % 256) as u8);
        }
        assert(be16(p, end + 2) == r.1) by {
            assert(p[end + 2] == rec[4] && p[end + 3] == rec[5]);
        }
        assert(be16(p, end + 8) == r.2.len()) by {
            assert(p[end + 8] == rec[10] && p[end + 9] == rec[11]);
            assert(rec[10] == (r.2.len() / 256) as u8 && rec[11] == (r.2.len() % 256) as u8);
        }
        let next = offset + rec.len();
        assert(next == end + 10 + r.2.len());
        assert forall|i: int| 0 <= i < rest.len() implies not_an_address(#[trigger] rest[i]) by {
            assert(rest[i] == records[i + 1]);
        }
        assert(p.subrange(next, next + answer_records(ttl, rest).len()) =~= answer_records(
            ttl,
            rest,
        )) by {
            assert forall|k: int| 0 <= k < answer_records(ttl, rest).len() implies p[next + k]
                == answer_records(ttl, rest)[k] by {
                assert(p.subrange(offset, offset + all.len())[rec.len() + k] == all[rec.len() + k]);
            }
        }
        assert(find_aaaa(p, offset, count) == find_aaaa(p, next, (count - 1) as nat));
        lemma_skip_answer_records(p, next, ttl, rest, (count - 1) as nat);
    }
}

/// Answers that are not Internet-class AAAA records (a CNAME, say) are
/// skipped: a response whose answers are such records followed by an AAAA
/// record is read to that record's address.
pub proof fn lemma_other_answers_are_skipped(
    id: u16,
    domain: Seq<u8>,
    ttl: Seq<u8>,
    others: Seq<(u16, u16, Seq<u8>)>,
    address: Seq<u8>,
)
    requires
        spec_aaaa_query(id, domain).is_some(),
        ttl.len() == 4,
        address.len() == 16,
        others.len() < 65535,
        forall|i: int| 0 <= i < others.len() ==> not_an_address(#[trigger] others[i]),
    ensures
        spec_parse_aaaa(
            id,
            dns_header(id, (others.len() + 1) as u16) + aaaa_question(dns_labels(domain))
                + answer_records(ttl, others) + aaaa_answer(ttl, address),
        ) == Some(address),
{
    let labels = dns_labels(domain);
    let enc = encode_labels(labels);
    let n = (others.len() + 1) as u16;
    let skipped = answer_records(ttl, others);
    let p = dns_header(id, n) + aaaa_question(labels) + skipped + aaaa_answer(ttl, address);
    let qend: int = 12 + enc.len() as int + 5;
    assert(p =~= dns_header(id, n) + enc + seq![0u8, 0u8, 28u8, 0u8, 1u8] + skipped + aaaa_answer(
        ttl,
        address,
    ));
    assert(p.subrange(12, 12 + enc.len() as int) =~= enc);
    lemma_skip_encoded_name(p, 12, labels);
    assert(skip_questions(p, qend, 0) == Some(qend));
    assert(skip_questions(p, 12, 1) == Some(qend));
    assert(be16(p, 4) == 1);
    assert(be16(p, 6) == n);
    assert(p.subrange(qend, qend + skipped.len()) =~= skipped);
    lemma_skip_answer_records(p, qend, ttl, others, n as nat);
    let a = qend + skipped.len();
    assert(p[a] == 0xc0u8);
    assert(skip_name(p, a) == Some(a + 2));
    assert(be16(p, a + 2) == 28);
    assert(be16(p, a + 4) == 1);
    assert(be16(p, a + 10) == 16);
    assert(p.subrange(a + 12, a + 28) =~= address);
    assert(find_aaaa(p, a, 1) == Some(address));
}

} // verus!

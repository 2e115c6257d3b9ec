//! Image generation hashing: one value covering the Containerfile, the
//! build context, and the config values baked into the image at build time.
//! The image tag is `{tag_prefix}:{generation}`.

use vstd::prelude::*;
use vstd::utf8::encode_utf8;

use crate::config::Config;
use crate::text::{
    from_utf8_lossy, hex, hex_string, is_hex_char, lemma_hex_chars, lemma_hex_len, string_from_chars,
    utf8_lossy,
};

verus! {

/// The SHA-256 digest of `data`.
pub uninterp spec fn sha256(data: Seq<u8>) -> Seq<u8>;

/// `sha2::Sha256::digest`: the 32-byte SHA-256 digest of `data`. The
/// digest is left named; only its length is stated.
#[verifier::external_body]
fn sha256_digest(data: &[u8]) -> (d: Vec<u8>)
    ensures
        d@ == sha256(data@),
        d@.len() == 32,
{
    <sha2::Sha256 as sha2::Digest>::digest(data).to_vec()
}

/// One entry of the build context as read from disk: a directory with its
/// entries in the order the directory listed them, a symlink with its
/// target, a regular file with its contents, or anything else. Names are
/// the raw bytes of the file names.
#[derive(Debug)]
pub enum Node {
    Dir { name: Vec<u8>, children: Vec<Node> },
    Symlink { name: Vec<u8>, target: Vec<u8> },
    File { name: Vec<u8>, contents: Vec<u8> },
    Other { name: Vec<u8> },
}

/// What the generation covers besides the configuration: the
/// Containerfile's bytes and, when a build context is configured, its
/// entries.
#[derive(Debug)]
pub struct Inputs {
    pub containerfile: Vec<u8>,
    pub context: Option<Vec<Node>>,
}

/// Why no generation can be computed: the build context holds something
/// other than a directory, symlink or regular file, at this path relative
/// to the context.
#[derive(Debug)]
pub enum GenerationError {
    UnsupportedFileType { path: String },
}

/// A node's file name.
pub open spec fn name_of(n: Node) -> Seq<u8> {
    match n {
        Node::Dir { name, .. } => name@,
        Node::Symlink { name, .. } => name@,
        Node::File { name, .. } => name@,
        Node::Other { name } => name@,
    }
}

/// Byte-wise lexicographic order, the order of file names on Unix.
pub open spec fn bytes_le(a: Seq<u8>, b: Seq<u8>) -> bool
    decreases a.len(),
{
    if a.len() == 0 {
        true
    } else if b.len() == 0 {
        false
    } else if a[0] < b[0] {
        true
    } else if a[0] > b[0] {
        false
    } else {
        bytes_le(a.drop_first(), b.drop_first())
    }
}

/// `t` with index `j` inserted after every index whose name is not greater
/// than `j`'s: one step of a stable insertion sort by name.
pub open spec fn insert_index(kids: Seq<Node>, j: int, t: Seq<int>) -> Seq<int>
    decreases t.len(),
{
    if t.len() == 0 {
        seq![j]
    } else if bytes_le(name_of(kids[t.last()]), name_of(kids[j])) {
        t.push(j)
    } else {
        insert_index(kids, j, t.drop_last()).push(t.last())
    }
}

/// The indices `0..n` of `kids`, stably sorted by name: the order
/// `sort_by_key` on the file name visits the entries in.
pub open spec fn sorted_indices(kids: Seq<Node>, n: nat) -> Seq<int>
    decreases n,
{
    if n == 0 {
        seq![]
    } else {
        insert_index(kids, n - 1, sorted_indices(kids, (n - 1) as nat))
    }
}

/// The 8-byte big-endian encoding of `n`.
pub open spec fn be64(n: u64) -> Seq<u8> {
    seq![
        (n >> 56u64) as u8,
        (n >> 48u64) as u8,
        (n >> 40u64) as u8,
        (n >> 32u64) as u8,
        (n >> 24u64) as u8,
        (n >> 16u64) as u8,
        (n >> 8u64) as u8,
        n as u8,
    ]
}

/// The 2-byte big-endian encoding of `n`.
pub open spec fn be16(n: u16) -> Seq<u8> {
    seq![(n >> 8u16) as u8, n as u8]
}

/// One hashed field: the name, a zero byte, the value's length as 8
/// big-endian bytes, and the value.
pub open spec fn field(name: Seq<u8>, value: Seq<u8>) -> Seq<u8> {
    name + seq![0u8] + be64(value.len() as u64) + value
}

/// The path of `name` below `parent`, relative to the build context.
pub open spec fn child_path(parent: Seq<u8>, name: Seq<u8>) -> Seq<u8> {
    if parent.len() == 0 {
        name
    } else {
        parent + seq![47u8] + name
    }
}

/// The bytes a path is hashed as: its lossy UTF-8 text, encoded.
pub open spec fn path_bytes(p: Seq<u8>) -> Seq<u8> {
    encode_utf8(utf8_lossy(p))
}

/// What one context entry below `parent` contributes, or the relative path
/// of an entry of unsupported type: a directory its path then its entries
/// in name order, a symlink its path and target, a file its path and
/// contents.
pub open spec fn entry_bytes(n: Node, parent: Seq<u8>) -> Result<Seq<u8>, Seq<char>>
    decreases n, 0nat,
{
    let rel = child_path(parent, name_of(n));
    match n {
        Node::Dir { children, .. } => match children_bytes(
            children@,
            sorted_indices(children@, children@.len()),
            0,
            rel,
        ) {
            Ok(b) => Ok(field(encode_utf8("dir"@), path_bytes(rel)) + b),
            Err(p) => Err(p),
        },
        Node::Symlink { target, .. } => Ok(
            field(encode_utf8("symlink"@), path_bytes(rel)) + field(
                encode_utf8("target"@),
                path_bytes(target@),
            ),
        ),
        Node::File { contents, .. } => Ok(
            field(encode_utf8("file"@), path_bytes(rel)) + field(
                encode_utf8("contents"@),
                contents@,
            ),
        ),
        Node::Other { .. } => Err(utf8_lossy(rel)),
    }
}

/// What the entries `order[k..]` of `kids` contribute, in that order.
pub open spec fn children_bytes(kids: Seq<Node>, order: Seq<int>, k: nat, parent: Seq<u8>) -> Result<
    Seq<u8>,
    Seq<char>,
>
    decreases kids, order.len() - k,
{
    if k >= order.len() {
        Ok(seq![])
    } else {
        let j = order[k as int];
        if 0 <= j < kids.len() {
            match entry_bytes(kids[j], parent) {
                Err(p) => Err(p),
                Ok(b) => match children_bytes(kids, order, k + 1, parent) {
                    Ok(rest) => Ok(b + rest),
                    Err(p) => Err(p),
                },
            }
        } else {
            Ok(seq![])
        }
    }
}


/// Whether `a` sorts at or before `b`.
fn bytes_le_exec(a: &Vec<u8>, b: &Vec<u8>) -> (r: bool)
    ensures
        r == bytes_le(a@, b@),
{
    let mut i: usize = 0;
    assert(a@.skip(0) =~= a@);
    assert(b@.skip(0) =~= b@);
    while i < a.len() && i < b.len() && a[i] == b[i]
        invariant
            i <= a@.len(),
            i <= b@.len(),
            bytes_le(a@, b@) == bytes_le(a@.skip(i as int), b@.skip(i as int)),
        decreases a@.len() - i,
    {
        assert(a@.skip(i as int).drop_first() =~= a@.skip(i + 1));
        assert(b@.skip(i as int).drop_first() =~= b@.skip(i + 1));
        i = i + 1;
    }
    if i == a.len() {
        assert(a@.skip(i as int).len() == 0);
        true
    } else if i == b.len() {
        false
    } else {
        assert(a@.skip(i as int)[0] == a@[i as int]);
        assert(b@.skip(i as int)[0] == b@[i as int]);
        a[i] < b[i]
    }
}

fn name_ref(n: &Node) -> (r: &Vec<u8>)
    ensures
        r@ == name_of(*n),
{
    match n {
        Node::Dir { name, .. } => name,
        Node::Symlink { name, .. } => name,
        Node::File { name, .. } => name,
        Node::Other { name } => name,
    }
}

proof fn lemma_insert_index(kids: Seq<Node>, j: int, t: Seq<int>, p: int)
    requires
        0 <= p <= t.len(),
        forall|m: int| p <= m < t.len() ==> !bytes_le(name_of(kids[t[m]]), name_of(kids[j])),
        p == 0 || bytes_le(name_of(kids[t[p - 1]]), name_of(kids[j])),
    ensures
        insert_index(kids, j, t) == t.take(p) + seq![j] + t.skip(p),
    decreases t.len(),
{
    if t.len() == 0 {
        assert(t.take(p) + seq![j] + t.skip(p) =~= seq![j]);
    } else if p == t.len() {
        assert(t.take(p) + seq![j] + t.skip(p) =~= t.push(j));
    } else {
        let u = t.drop_last();
        assert(!bytes_le(name_of(kids[t[t.len() - 1]]), name_of(kids[j])));
        assert forall|m: int| p <= m < u.len() implies !bytes_le(name_of(kids[u[m]]), name_of(kids[j])) by {
            assert(u[m] == t[m]);
        }
        if p > 0 {
            assert(u[p - 1] == t[p - 1]);
        }
        lemma_insert_index(kids, j, u, p);
        assert(u.take(p) + seq![j] + u.skip(p) + seq![t.last()] =~= t.take(p) + seq![j] + t.skip(p));
    }
}

/// The indices of `kids` in stable name order.
fn sort_indices(kids: &Vec<Node>) -> (order: Vec<usize>)
    ensures
        order@.len() == kids@.len(),
        sorted_indices(kids@, kids@.len()).len() == kids@.len(),
        forall|m: int| 0 <= m < order@.len() ==> (#[trigger] order@[m] as int) == sorted_indices(kids@, kids@.len())[m],
        forall|m: int| 0 <= m < order@.len() ==> #[trigger] order@[m] < kids@.len(),
{
    let mut order: Vec<usize> = Vec::new();
    let mut n: usize = 0;
    while n < kids.len()
        invariant
            n <= kids@.len(),
            order@.len() == n,
            sorted_indices(kids@, n as nat).len() == n,
            forall|m: int| 0 <= m < n ==> (#[trigger] order@[m] as int) == sorted_indices(kids@, n as nat)[m],
            forall|m: int| 0 <= m < n ==> #[trigger] order@[m] < kids@.len(),
        decreases kids@.len() - n,
    {
        let ghost t = sorted_indices(kids@, n as nat);
        let mut p: usize = order.len();
        while p > 0 && !bytes_le_exec(name_ref(&kids[order[p - 1]]), name_ref(&kids[n]))
            invariant
                p <= order@.len() == n,
                n < kids@.len(),
                forall|m: int| 0 <= m < n ==> (#[trigger] order@[m] as int) == t[m],
                forall|m: int| 0 <= m < n ==> #[trigger] order@[m] < kids@.len(),
                forall|m: int| p <= m < n ==> !bytes_le(name_of(kids@[t[m]]), name_of(kids@[n as int])),
            decreases p,
        {
            p = p - 1;
        }
        proof {
            lemma_insert_index(kids@, n as int, t, p as int);
        }
        let ghost prev = order@;
        order.insert(p, n);
        proof {
            let u = sorted_indices(kids@, (n + 1) as nat);
            assert(u == t.take(p as int) + seq![n as int] + t.skip(p as int));
            assert forall|m: int| 0 <= m < n + 1 implies (#[trigger] order@[m] as int) == u[m] && order@[m] < kids@.len() by {
                if m < p {
                    assert(order@[m] == prev[m]);
                } else if m == p {
                } else {
                    assert(order@[m] == prev[m - 1]);
                }
            }
        }
        n = n + 1;
    }
    order
}


fn extend(msg: &mut Vec<u8>, data: &[u8])
    ensures
        final(msg)@ == old(msg)@ + data@,
{
    let mut i: usize = 0;
    let ghost start = msg@;
    while i < data.len()
        invariant
            i <= data@.len(),
            msg@ == start + data@.take(i as int),
        decreases data@.len() - i,
    {
        msg.push(data[i]);
        i = i + 1;
        assert(msg@ =~= start + data@.take(i as int));
    }
    assert(data@.take(data@.len() as int) =~= data@);
}

fn push_be64(msg: &mut Vec<u8>, n: u64)
    ensures
        final(msg)@ == old(msg)@ + be64(n),
{
    let ghost start = msg@;
    msg.push((n >> 56u64) as u8);
    msg.push((n >> 48u64) as u8);
    msg.push((n >> 40u64) as u8);
    msg.push((n >> 32u64) as u8);
    msg.push((n >> 24u64) as u8);
    msg.push((n >> 16u64) as u8);
    msg.push((n >> 8u64) as u8);
    msg.push(n as u8);
    assert(msg@ =~= start + be64(n));
}

/// Appends one hashed field.
fn push_field(msg: &mut Vec<u8>, name: &[u8], value: &[u8])
    ensures
        final(msg)@ == old(msg)@ + field(name@, value@),
{
    let ghost start = msg@;
    extend(msg, name);
    msg.push(0u8);
    push_be64(msg, value.len() as u64);
    extend(msg, value);
    assert(msg@ =~= start + field(name@, value@));
}

fn child_path_exec(parent: &Vec<u8>, name: &Vec<u8>) -> (r: Vec<u8>)
    ensures
        r@ == child_path(parent@, name@),
{
    let mut r: Vec<u8> = Vec::new();
    if parent.len() != 0 {
        extend(&mut r, parent.as_slice());
        r.push(47u8);
    }
    extend(&mut r, name.as_slice());
    assert(r@ =~= child_path(parent@, name@));
    r
}

fn path_bytes_exec(p: &Vec<u8>) -> (r: Vec<u8>)
    ensures
        r@ == path_bytes(p@),
{
    let text = from_utf8_lossy(p.as_slice());
    let b = text.as_str().as_bytes();
    let mut r: Vec<u8> = Vec::new();
    extend(&mut r, b);
    assert(r@ =~= path_bytes(p@));
    r
}

/// The result of an entry, `acc` followed by what the rest contributes.
pub open spec fn after(acc: Seq<u8>, rest: Result<Seq<u8>, Seq<char>>) -> Result<Seq<u8>, Seq<char>> {
    match rest {
        Ok(r) => Ok(acc + r),
        Err(p) => Err(p),
    }
}

/// Appends what the entry `n` below `parent` contributes.
fn entry_into(msg: &mut Vec<u8>, n: &Node, parent: &Vec<u8>) -> (r: Result<(), String>)
    ensures
        match entry_bytes(*n, parent@) {
            Ok(b) => r is Ok && final(msg)@ == old(msg)@ + b,
            Err(p) => r matches Err(e) && e@ == p,
        },
    decreases *n, 0nat,
{
    let rel = child_path_exec(parent, name_ref(n));
    let label = path_bytes_exec(&rel);
    match n {
        Node::Dir { children, .. } => {
            let ghost start = msg@;
            let mut scratch: Vec<u8> = Vec::new();
            push_field(&mut scratch, "dir".as_bytes(), label.as_slice());
            match children_into(&mut scratch, children, &rel) {
                Ok(()) => {
                    extend(msg, scratch.as_slice());
                    assert(msg@ =~= start + (field(encode_utf8("dir"@), path_bytes(rel@)) + (
                    scratch@.skip(field(encode_utf8("dir"@), path_bytes(rel@)).len() as int))));
                    Ok(())
                },
                Err(e) => Err(e),
            }
        },
        Node::Symlink { target, .. } => {
            let ghost start = msg@;
            push_field(msg, "symlink".as_bytes(), label.as_slice());
            let t = path_bytes_exec(target);
            push_field(msg, "target".as_bytes(), t.as_slice());
            assert(msg@ =~= start + (field(encode_utf8("symlink"@), path_bytes(rel@)) + field(
                encode_utf8("target"@),
                path_bytes(target@),
            )));
            Ok(())
        },
        Node::File { contents, .. } => {
            let ghost start = msg@;
            push_field(msg, "file".as_bytes(), label.as_slice());
            push_field(msg, "contents".as_bytes(), contents.as_slice());
            assert(msg@ =~= start + (field(encode_utf8("file"@), path_bytes(rel@)) + field(
                encode_utf8("contents"@),
                contents@,
            )));
            Ok(())
        },
        Node::Other { .. } => Err(from_utf8_lossy(rel.as_slice())),
    }
}

/// Appends what the entries of a directory at `parent` contribute, in name
/// order.
fn children_into(msg: &mut Vec<u8>, kids: &Vec<Node>, parent: &Vec<u8>) -> (r: Result<(), String>)
    ensures
        match children_bytes(kids@, sorted_indices(kids@, kids@.len()), 0, parent@) {
            Ok(b) => r is Ok && final(msg)@ == old(msg)@ + b,
            Err(p) => r matches Err(e) && e@ == p,
        },
    decreases kids@, 1nat,
{
    let order = sort_indices(kids);
    let ghost ord = sorted_indices(kids@, kids@.len());
    let ghost start = msg@;
    let mut k: usize = 0;
    while k < order.len()
        invariant
            k <= order@.len() == ord.len() == kids@.len(),
            ord == sorted_indices(kids@, kids@.len()),
            forall|m: int| 0 <= m < order@.len() ==> (#[trigger] order@[m] as int) == ord[m],
            forall|m: int| 0 <= m < order@.len() ==> #[trigger] order@[m] < kids@.len(),
            start.len() <= msg@.len(),
            msg@.take(start.len() as int) == start,
            children_bytes(kids@, ord, 0, parent@) == after(
                msg@.skip(start.len() as int),
                children_bytes(kids@, ord, k as nat, parent@),
            ),
        decreases order@.len() - k,
    {
        let j = order[k];
        assert(order@[k as int] == j);
        assert(ord[k as int] == j as int);
        let ghost before = msg@;
        let ghost acc = before.skip(start.len() as int);
        let ghost eb = entry_bytes(kids@[j as int], parent@);
        match entry_into(msg, &kids[j], parent) {
            Ok(()) => {},
            Err(e) => {
                assert(eb is Err);
                assert(children_bytes(kids@, ord, k as nat, parent@) == Err::<Seq<u8>, Seq<char>>(e@));
                assert(children_bytes(kids@, ord, 0, parent@) == Err::<Seq<u8>, Seq<char>>(e@));
                assert(ord == sorted_indices(kids@, kids@.len()));
                let r: Result<(), String> = Err(e);
                assert(r matches Err(e2) && e2@ == children_bytes(kids@, ord, 0, parent@)->Err_0);
                return r;
            },
        }
        proof {
            assert(eb is Ok);
            let b = eb->Ok_0;
            assert(msg@ == before + b);
            assert(msg@.skip(before.len() as int) =~= b);
            assert(msg@.skip(start.len() as int) =~= acc + b);
            assert(msg@.take(start.len() as int) =~= before.take(start.len() as int));
            let rest = children_bytes(kids@, ord, (k + 1) as nat, parent@);
            assert(children_bytes(kids@, ord, k as nat, parent@) == after(b, rest));
            match rest {
                Ok(r) => {
                    assert(acc + (b + r) =~= (acc + b) + r);
                },
                Err(_) => {},
            }
        }
        k = k + 1;
    }
    assert(msg@ =~= start + msg@.skip(start.len() as int));
    Ok(())
}


/// The message hashed for a generation: a version header, the
/// Containerfile, the build context's entries in name order, then the SSH
/// user and port and the machine architecture baked into the image.
pub open spec fn generation_message(config: Config, inputs: Inputs) -> Result<Seq<u8>, Seq<char>> {
    let head = encode_utf8("nbac-generation-v1\0"@) + field(
        encode_utf8("containerfile"@),
        inputs.containerfile@,
    );
    let context = match inputs.context {
        None => Ok(seq![]),
        Some(kids) => children_bytes(kids@, sorted_indices(kids@, kids@.len()), 0, seq![]),
    };
    match context {
        Err(p) => Err(p),
        Ok(c) => Ok(
            head + c + field(encode_utf8("ssh.user"@), encode_utf8(config.ssh.user@)) + field(
                encode_utf8("ssh.port"@),
                be16(config.ssh.port),
            ) + field(encode_utf8("machine.arch"@), encode_utf8(config.machine.arch_spec())),
        ),
    }
}

/// The generation: the first 12 lowercase hex digits of the message's
/// SHA-256 digest.
pub open spec fn generation_spec(config: Config, inputs: Inputs) -> Result<Seq<char>, Seq<char>> {
    match generation_message(config, inputs) {
        Ok(m) => Ok(hex(sha256(m)).take(12)),
        Err(p) => Err(p),
    }
}

/// Builds the message the generation digests: a version header, the
/// Containerfile, the build context's entries in sorted order, and the
/// baked configuration values, each as a length-prefixed field.
pub fn message(config: &Config, inputs: &Inputs) -> (r: Result<Vec<u8>, GenerationError>)
    ensures
        match generation_message(*config, *inputs) {
            Ok(m) => r matches Ok(v) && v@ == m,
            Err(p) => r matches Err(GenerationError::UnsupportedFileType { path }) && path@ == p,
        },
{
    let mut msg: Vec<u8> = Vec::new();
    extend(&mut msg, "nbac-generation-v1\0".as_bytes());
    push_field(&mut msg, "containerfile".as_bytes(), inputs.containerfile.as_slice());
    let ghost head = msg@;
    match &inputs.context {
        Some(kids) => {
            let root: Vec<u8> = Vec::new();
            assert(root@ =~= Seq::<u8>::empty());
            match children_into(&mut msg, kids, &root) {
                Ok(()) => {},
                Err(path) => {
                    return Err(GenerationError::UnsupportedFileType { path });
                },
            }
        },
        None => {},
    }
    let ghost with_context = msg@;
    push_field(&mut msg, "ssh.user".as_bytes(), config.ssh.user.as_str().as_bytes());
    let port: [u8; 2] = [(config.ssh.port >> 8u16) as u8, config.ssh.port as u8];
    assert(port@ =~= be16(config.ssh.port));
    push_field(&mut msg, "ssh.port".as_bytes(), port.as_slice());
    push_field(&mut msg, "machine.arch".as_bytes(), config.machine.arch().as_bytes());
    proof {
        let c = with_context.skip(head.len() as int);
        assert(with_context =~= head + c);
        assert(generation_message(*config, *inputs) == Ok::<Seq<u8>, Seq<char>>(msg@));
    }
    Ok(msg)
}

/// The generation a digest gives: its first 12 lowercase hex digits.
pub fn generation_of_digest(digest: &[u8]) -> (g: String)
    requires
        digest@.len() >= 6,
    ensures
        g@ == hex(digest@).take(12),
        generation_text(g@),
{
    let hexed = hex_string(digest);
    proof {
        lemma_hex_len(digest@);
        lemma_hex_chars(digest@);
    }
    let chars = crate::text::chars_of(hexed.as_str());
    let first = crate::text::slice_of(chars.as_slice(), 0, 12);
    assert forall|i: int| 0 <= i < 12 implies is_hex_char(#[trigger] first@[i]) by {
        assert(first@[i] == hex(digest@)[i]);
    }
    assert(first@ =~= hex(digest@).take(12));
    string_from_chars(first.as_slice())
}

/// Computes the generation of `config` and `inputs`.
pub fn compute(config: &Config, inputs: &Inputs) -> (r: Result<String, GenerationError>)
    ensures
        match generation_spec(*config, *inputs) {
            Ok(g) => r matches Ok(s) && s@ == g,
            Err(p) => r matches Err(GenerationError::UnsupportedFileType { path }) && path@ == p,
        },
        r matches Ok(s) ==> generation_text(s@),
{
    let msg = match message(config, inputs) {
        Ok(m) => m,
        Err(e) => return Err(e),
    };
    let digest = sha256_digest(msg.as_slice());
    Ok(generation_of_digest(digest.as_slice()))
}

/// Whether `g` has the shape of a generation: twelve lowercase hex digits.
pub open spec fn generation_text(g: Seq<char>) -> bool {
    g.len() == 12 && forall|i: int| 0 <= i < 12 ==> is_hex_char(#[trigger] g[i])
}

/// The image tag: `{tag_prefix}:{generation}`.
pub fn image_tag(config: &Config, inputs: &Inputs) -> (r: Result<String, GenerationError>)
    ensures
        match generation_spec(*config, *inputs) {
            Ok(g) => r matches Ok(s) && s@ == config.image.tag_prefix@ + ":"@ + g,
            Err(p) => r matches Err(GenerationError::UnsupportedFileType { path }) && path@ == p,
        },
        r matches Ok(s) ==> exists|g: Seq<char>|
            #![trigger generation_text(g)]
            generation_text(g) && s@ == config.image.tag_prefix@ + ":"@ + g,
{
    let g = compute(config, inputs)?;
    assert(generation_text(g@));
    let mut tag = config.image.tag_prefix.clone();
    tag.append(":");
    tag.append(g.as_str());
    Ok(tag)
}


proof fn lemma_be64_injective(a: u64, b: u64)
    requires
        be64(a) == be64(b),
    ensures
        a == b,
{
    assert(be64(a)[0] == be64(b)[0] && be64(a)[1] == be64(b)[1] && be64(a)[2] == be64(b)[2]
        && be64(a)[3] == be64(b)[3]);
    assert(be64(a)[4] == be64(b)[4] && be64(a)[5] == be64(b)[5] && be64(a)[6] == be64(b)[6]
        && be64(a)[7] == be64(b)[7]);
    assert(a == b) by (bit_vector)
        requires
            (a >> 56u64) as u8 == (b >> 56u64) as u8,
            (a >> 48u64) as u8 == (b >> 48u64) as u8,
            (a >> 40u64) as u8 == (b >> 40u64) as u8,
            (a >> 32u64) as u8 == (b >> 32u64) as u8,
            (a >> 24u64) as u8 == (b >> 24u64) as u8,
            (a >> 16u64) as u8 == (b >> 16u64) as u8,
            (a >> 8u64) as u8 == (b >> 8u64) as u8,
            a as u8 == b as u8,
    ;
}

proof fn lemma_be16_injective(a: u16, b: u16)
    requires
        be16(a) == be16(b),
    ensures
        a == b,
{
    assert(be16(a)[0] == be16(b)[0] && be16(a)[1] == be16(b)[1]);
    assert(a == b) by (bit_vector)
        requires
            (a >> 8u16) as u8 == (b >> 8u16) as u8,
            a as u8 == b as u8,
    ;
}

/// A field is uniquely decodable: equal streams that start with the same
/// field name carry the same value and continue alike.
proof fn lemma_field_prefix(name: Seq<u8>, v1: Seq<u8>, r1: Seq<u8>, v2: Seq<u8>, r2: Seq<u8>)
    requires
        v1.len() <= u64::MAX,
        v2.len() <= u64::MAX,
        field(name, v1) + r1 == field(name, v2) + r2,
    ensures
        v1 == v2,
        r1 == r2,
{
    let m1 = field(name, v1) + r1;
    let m2 = field(name, v2) + r2;
    let o: int = name.len() as int + 1;
    assert(m1.subrange(o, o + 8) =~= be64(v1.len() as u64));
    assert(m2.subrange(o, o + 8) =~= be64(v2.len() as u64));
    lemma_be64_injective(v1.len() as u64, v2.len() as u64);
    assert(m1.subrange(o + 8, o + 8 + v1.len() as int) =~= v1);
    assert(m2.subrange(o + 8, o + 8 + v2.len() as int) =~= v2);
    assert(m1.skip(o + 8 + v1.len() as int) =~= r1);
    assert(m2.skip(o + 8 + v2.len() as int) =~= r2);
}

proof fn lemma_encode_injective(a: Seq<char>, b: Seq<char>)
    requires
        encode_utf8(a) == encode_utf8(b),
    ensures
        a == b,
{
    vstd::utf8::encode_utf8_decode_utf8(a);
    vstd::utf8::encode_utf8_decode_utf8(b);
}

/// The generation covers the Containerfile: equal messages come from the
/// same Containerfile bytes, whatever the rest of the inputs.
#[verifier::spinoff_prover]
#[verifier::rlimit(40)]
pub proof fn lemma_message_covers_containerfile(c1: Config, i1: Inputs, c2: Config, i2: Inputs)
    requires
        generation_message(c1, i1) is Ok,
        generation_message(c1, i1) == generation_message(c2, i2),
    ensures
        i1.containerfile@ == i2.containerfile@,
{
    assert(i1.containerfile.len() == i1.containerfile@.len());
    assert(i2.containerfile.len() == i2.containerfile@.len());
    let h = encode_utf8("nbac-generation-v1\0"@);
    let cf = encode_utf8("containerfile"@);
    let m1 = generation_message(c1, i1)->Ok_0;
    let m2 = generation_message(c2, i2)->Ok_0;
    let rest1 = m1.skip((h.len() + field(cf, i1.containerfile@).len()) as int);
    let rest2 = m2.skip((h.len() + field(cf, i2.containerfile@).len()) as int);
    assert(m1 =~= h + (field(cf, i1.containerfile@) + rest1));
    assert(m2 =~= h + (field(cf, i2.containerfile@) + rest2));
    assert(m1.skip(h.len() as int) =~= field(cf, i1.containerfile@) + rest1);
    assert(m2.skip(h.len() as int) =~= field(cf, i2.containerfile@) + rest2);
    lemma_field_prefix(cf, i1.containerfile@, rest1, i2.containerfile@, rest2);
}


/// The generation covers the configuration baked into the image: for the
/// same Containerfile and build context, equal messages come from the same
/// SSH user, the same SSH port, and the same choice of Rosetta.
#[verifier::spinoff_prover]
#[verifier::rlimit(40)]
pub proof fn lemma_message_covers_baked_config(c1: Config, c2: Config, inputs: Inputs)
    requires
        generation_message(c1, inputs) is Ok,
        generation_message(c1, inputs) == generation_message(c2, inputs),
        encode_utf8(c1.ssh.user@).len() <= u64::MAX,
        encode_utf8(c2.ssh.user@).len() <= u64::MAX,
    ensures
        c1.ssh.user@ == c2.ssh.user@,
        c1.ssh.port == c2.ssh.port,
        c1.machine.rosetta == c2.machine.rosetta,
{
    let h = encode_utf8("nbac-generation-v1\0"@) + field(
        encode_utf8("containerfile"@),
        inputs.containerfile@,
    );
    let c = match inputs.context {
        None => Seq::<u8>::empty(),
        Some(kids) => children_bytes(kids@, sorted_indices(kids@, kids@.len()), 0, seq![])->Ok_0,
    };
    let su = encode_utf8("ssh.user"@);
    let sp = encode_utf8("ssh.port"@);
    let sa = encode_utf8("machine.arch"@);
    let u1 = encode_utf8(c1.ssh.user@);
    let u2 = encode_utf8(c2.ssh.user@);
    let a1 = encode_utf8(c1.machine.arch_spec());
    let a2 = encode_utf8(c2.machine.arch_spec());
    let tail1 = field(sp, be16(c1.ssh.port)) + field(sa, a1);
    let tail2 = field(sp, be16(c2.ssh.port)) + field(sa, a2);
    let m1 = generation_message(c1, inputs)->Ok_0;
    let m2 = generation_message(c2, inputs)->Ok_0;
    assert(m1 =~= (h + c) + (field(su, u1) + tail1));
    assert(m2 =~= (h + c) + (field(su, u2) + tail2));
    assert(m1.skip((h + c).len() as int) =~= field(su, u1) + tail1);
    assert(m2.skip((h + c).len() as int) =~= field(su, u2) + tail2);
    lemma_field_prefix(su, u1, tail1, u2, tail2);
    lemma_encode_injective(c1.ssh.user@, c2.ssh.user@);
    lemma_field_prefix(sp, be16(c1.ssh.port), field(sa, a1), be16(c2.ssh.port), field(sa, a2));
    lemma_be16_injective(c1.ssh.port, c2.ssh.port);
    assert(field(sa, a1) + Seq::<u8>::empty() =~= field(sa, a1));
    assert(field(sa, a2) + Seq::<u8>::empty() =~= field(sa, a2));
    reveal_strlit("amd64");
    reveal_strlit("arm64");
    assert(a1.len() <= u64::MAX && a2.len() <= u64::MAX) by {
        vstd::utf8::is_ascii_chars_encode_utf8(c1.machine.arch_spec());
        vstd::utf8::is_ascii_chars_encode_utf8(c2.machine.arch_spec());
    }
    lemma_field_prefix(sa, a1, Seq::<u8>::empty(), a2, Seq::<u8>::empty());
    lemma_encode_injective(c1.machine.arch_spec(), c2.machine.arch_spec());
    assert("amd64"@[1] != "arm64"@[1]);
}


/// `insert_index` adds `j` to `t` and nothing else.
proof fn lemma_insert_index_elems(kids: Seq<Node>, j: int, t: Seq<int>)
    ensures
        insert_index(kids, j, t).len() == t.len() + 1,
        forall|x: int| #[trigger] insert_index(kids, j, t).contains(x) <==> (t.contains(x) || x == j),
        t.no_duplicates() && !t.contains(j) ==> insert_index(kids, j, t).no_duplicates(),
    decreases t.len(),
{
    let r = insert_index(kids, j, t);
    if t.len() == 0 {
        assert(r =~= seq![j]);
        assert forall|x: int| #[trigger] r.contains(x) <==> (t.contains(x) || x == j) by {
            if r.contains(x) {
                assert(r[0] == j);
            }
            if x == j {
                assert(r[0] == x);
            }
        }
    } else if bytes_le(name_of(kids[t.last()]), name_of(kids[j])) {
        assert(r == t.push(j));
        assert forall|x: int| #[trigger] r.contains(x) <==> (t.contains(x) || x == j) by {
            if r.contains(x) {
                let i = choose|i: int| 0 <= i < r.len() && r[i] == x;
                if i < t.len() {
                    assert(t[i] == x);
                }
            }
            if t.contains(x) {
                let i = choose|i: int| 0 <= i < t.len() && t[i] == x;
                assert(r[i] == x);
            }
            if x == j {
                assert(r[t.len() as int] == x);
            }
        }
    } else {
        let u = t.drop_last();
        lemma_insert_index_elems(kids, j, u);
        let ru = insert_index(kids, j, u);
        assert(r == ru.push(t.last()));
        assert forall|x: int| #[trigger] r.contains(x) <==> (t.contains(x) || x == j) by {
            if r.contains(x) {
                let i = choose|i: int| 0 <= i < r.len() && r[i] == x;
                if i < ru.len() {
                    assert(ru[i] == x);
                    assert(ru.contains(x));
                    if u.contains(x) {
                        let k = choose|k: int| 0 <= k < u.len() && u[k] == x;
                        assert(t[k] == x);
                    }
                } else {
                    assert(t[t.len() - 1] == x);
                }
            }
            if t.contains(x) {
                let i = choose|i: int| 0 <= i < t.len() && t[i] == x;
                if i < u.len() {
                    assert(u[i] == x);
                    assert(u.contains(x));
                    assert(ru.contains(x));
                    let k = choose|k: int| 0 <= k < ru.len() && ru[k] == x;
                    assert(r[k] == x);
                } else {
                    assert(r[ru.len() as int] == x);
                }
            }
            if x == j {
                assert(ru.contains(x));
                let k = choose|k: int| 0 <= k < ru.len() && ru[k] == x;
                assert(r[k] == x);
            }
        }
        if t.no_duplicates() && !t.contains(j) {
            assert(u.no_duplicates()) by {
                assert forall|a: int, b: int| 0 <= a < u.len() && 0 <= b < u.len() && a != b implies u[a] != u[b] by {
                    assert(u[a] == t[a] && u[b] == t[b]);
                }
            }
            assert(!u.contains(j)) by {
                if u.contains(j) {
                    let k = choose|k: int| 0 <= k < u.len() && u[k] == j;
                    assert(t[k] == j);
                }
            }
            let last = t.last();
            assert(!ru.contains(last)) by {
                if ru.contains(last) {
                    assert(u.contains(last) || last == j);
                    if u.contains(last) {
                        let k = choose|k: int| 0 <= k < u.len() && u[k] == last;
                        assert(t[k] == t[t.len() - 1]);
                    } else {
                        assert(t[t.len() - 1] == j);
                    }
                }
            }
            assert forall|a: int, b: int| 0 <= a < r.len() && 0 <= b < r.len() && a != b implies r[a] != r[b] by {
                if a == ru.len() {
                    assert(r[b] == ru[b]);
                } else if b == ru.len() {
                    assert(r[a] == ru[a]);
                } else {
                    assert(r[a] == ru[a] && r[b] == ru[b]);
                }
            }
        }
    }
}

/// The name order of `n` entries visits each of them exactly once.
proof fn lemma_sorted_indices_perm(kids: Seq<Node>, n: nat)
    ensures
        sorted_indices(kids, n).len() == n,
        sorted_indices(kids, n).no_duplicates(),
        forall|x: int| #[trigger] sorted_indices(kids, n).contains(x) <==> 0 <= x < n,
    decreases n,
{
    if n > 0 {
        let t = sorted_indices(kids, (n - 1) as nat);
        lemma_sorted_indices_perm(kids, (n - 1) as nat);
        lemma_insert_index_elems(kids, n - 1, t);
        assert(!t.contains(n - 1));
    }
}

/// Inserting by name depends only on the names.
proof fn lemma_insert_index_names(a: Seq<Node>, b: Seq<Node>, j: int, t: Seq<int>)
    requires
        forall|i: int| 0 <= i < t.len() ==> name_of(a[#[trigger] t[i]]) == name_of(b[t[i]]),
        name_of(a[j]) == name_of(b[j]),
    ensures
        insert_index(a, j, t) == insert_index(b, j, t),
    decreases t.len(),
{
    if t.len() > 0 {
        assert(name_of(a[t[t.len() - 1]]) == name_of(b[t[t.len() - 1]]));
        let u = t.drop_last();
        assert forall|i: int| 0 <= i < u.len() implies name_of(a[#[trigger] u[i]]) == name_of(b[u[i]]) by {
            assert(u[i] == t[i]);
        }
        lemma_insert_index_names(a, b, j, u);
    }
}

/// The name order depends only on the names.
proof fn lemma_sorted_indices_names(a: Seq<Node>, b: Seq<Node>, n: nat)
    requires
        forall|i: int| 0 <= i < n ==> name_of(#[trigger] a[i]) == name_of(b[i]),
    ensures
        sorted_indices(a, n) == sorted_indices(b, n),
    decreases n,
{
    if n > 0 {
        let m = (n - 1) as nat;
        lemma_sorted_indices_names(a, b, m);
        let t = sorted_indices(a, m);
        lemma_sorted_indices_perm(a, m);
        assert forall|i: int| 0 <= i < t.len() implies name_of(a[#[trigger] t[i]]) == name_of(b[t[i]]) by {
            assert(t.contains(t[i]));
            assert(a[t[i]] == a[t[i]]);
        }
        assert(name_of(a[n - 1]) == name_of(b[n - 1]));
        lemma_insert_index_names(a, b, n - 1, t);
    }
}

/// Entries that are alike contribute alike.
proof fn lemma_children_alike(a: Seq<Node>, b: Seq<Node>, order: Seq<int>, k: nat, parent: Seq<u8>)
    requires
        a.len() == b.len(),
        forall|m: int| k <= m < order.len() && 0 <= order[m] < a.len() ==> a[#[trigger] order[m]] == b[order[m]],
    ensures
        children_bytes(a, order, k, parent) == children_bytes(b, order, k, parent),
    decreases order.len() - k,
{
    if k < order.len() {
        let j = order[k as int];
        if 0 <= j < a.len() {
            assert(a[j] == b[j]);
            lemma_children_alike(a, b, order, k + 1, parent);
        }
    }
}

/// Alike entries before position `p` contribute one common prefix.
proof fn lemma_children_prefix(
    a: Seq<Node>,
    b: Seq<Node>,
    order: Seq<int>,
    k: nat,
    p: nat,
    parent: Seq<u8>,
) -> (pre: Seq<u8>)
    requires
        k <= p < order.len(),
        a.len() == b.len(),
        forall|m: int| k <= m < p ==> 0 <= #[trigger] order[m] < a.len() && a[order[m]] == b[order[m]],
        children_bytes(a, order, k, parent) is Ok,
        children_bytes(b, order, k, parent) is Ok,
    ensures
        children_bytes(a, order, p, parent) is Ok,
        children_bytes(b, order, p, parent) is Ok,
        children_bytes(a, order, k, parent)->Ok_0 == pre + children_bytes(a, order, p, parent)->Ok_0,
        children_bytes(b, order, k, parent)->Ok_0 == pre + children_bytes(b, order, p, parent)->Ok_0,
    decreases p - k,
{
    if k == p {
        assert(children_bytes(a, order, k, parent)->Ok_0 =~= Seq::<u8>::empty() + children_bytes(a, order, p, parent)->Ok_0);
        assert(children_bytes(b, order, k, parent)->Ok_0 =~= Seq::<u8>::empty() + children_bytes(b, order, p, parent)->Ok_0);
        Seq::<u8>::empty()
    } else {
        let j = order[k as int];
        assert(0 <= j < a.len() && a[j] == b[j]);
        let e = entry_bytes(a[j], parent)->Ok_0;
        let rest = lemma_children_prefix(a, b, order, k + 1, p, parent);
        assert(children_bytes(a, order, k, parent)->Ok_0 =~= (e + rest) + children_bytes(a, order, p, parent)->Ok_0);
        assert(children_bytes(b, order, k, parent)->Ok_0 =~= (e + rest) + children_bytes(b, order, p, parent)->Ok_0);
        e + rest
    }
}

/// Whether the build context trees `a` and `b` are alike but for the
/// contents of one regular file, reached through the entry indices `path`:
/// every other entry along the way is the same, and the directories on the
/// way and the file keep their names.
pub open spec fn changed_at(a: Seq<Node>, b: Seq<Node>, path: Seq<int>) -> bool
    decreases path.len(),
{
    if path.len() == 0 || a.len() != b.len() || !(0 <= path[0] < a.len()) {
        false
    } else {
        let j = path[0];
        &&& forall|i: int| 0 <= i < a.len() && i != j ==> #[trigger] a[i] == b[i]
        &&& match a[j] {
            Node::File { name: n1, contents: c1 } => match b[j] {
                Node::File { name: n2, contents: c2 } => path.len() == 1 && n1@ == n2@ && c1@ != c2@,
                _ => false,
            },
            Node::Dir { name: n1, children: k1 } => match b[j] {
                Node::Dir { name: n2, children: k2 } => n1@ == n2@ && changed_at(
                    k1@,
                    k2@,
                    path.drop_first(),
                ),
                _ => false,
            },
            _ => false,
        }
    }
}

/// Entry lists alike but at index `j` contribute a common prefix, that
/// entry, and a common suffix.
#[verifier::spinoff_prover]
proof fn lemma_children_at(a: Seq<Node>, b: Seq<Node>, j: int, parent: Seq<u8>) -> (r: (Seq<u8>, Seq<u8>))
    requires
        a.len() == b.len(),
        0 <= j < a.len(),
        forall|i: int| 0 <= i < a.len() && i != j ==> #[trigger] a[i] == b[i],
        name_of(a[j]) == name_of(b[j]),
        children_bytes(a, sorted_indices(a, a.len()), 0, parent) is Ok,
        children_bytes(b, sorted_indices(b, b.len()), 0, parent) is Ok,
    ensures
        entry_bytes(a[j], parent) is Ok,
        entry_bytes(b[j], parent) is Ok,
        children_bytes(a, sorted_indices(a, a.len()), 0, parent)->Ok_0 == r.0 + entry_bytes(
            a[j],
            parent,
        )->Ok_0 + r.1,
        children_bytes(b, sorted_indices(b, b.len()), 0, parent)->Ok_0 == r.0 + entry_bytes(
            b[j],
            parent,
        )->Ok_0 + r.1,
{
    let n = a.len();
    assert forall|i: int| 0 <= i < n implies name_of(#[trigger] a[i]) == name_of(b[i]) by {
        if i != j {
            assert(a[i] == b[i]);
        }
    }
    lemma_sorted_indices_names(a, b, n);
    lemma_sorted_indices_perm(a, n);
    let order = sorted_indices(a, n);
    assert(order.contains(j));
    let p = choose|p: int| 0 <= p < order.len() && order[p] == j;
    assert forall|m: int| 0 <= m < order.len() && m != p implies 0 <= #[trigger] order[m] < n
        && a[order[m]] == b[order[m]] by {
        assert(order.contains(order[m]));
        assert(order[m] != order[p]);
    }
    let pre = lemma_children_prefix(a, b, order, 0, p as nat, parent);
    lemma_children_alike(a, b, order, (p + 1) as nat, parent);
    let post = children_bytes(a, order, (p + 1) as nat, parent);
    let ea = entry_bytes(a[j], parent);
    let eb = entry_bytes(b[j], parent);
    assert(children_bytes(a, order, p as nat, parent) == match ea {
        Err(e) => Err(e),
        Ok(x) => after(x, post),
    });
    assert(children_bytes(b, order, p as nat, parent) == match eb {
        Err(e) => Err(e),
        Ok(x) => after(x, post),
    });
    assert(ea is Ok && eb is Ok && post is Ok);
    assert(children_bytes(a, order, 0, parent)->Ok_0 =~= pre + ea->Ok_0 + post->Ok_0);
    assert(children_bytes(b, order, 0, parent)->Ok_0 =~= pre + eb->Ok_0 + post->Ok_0);
    (pre, post->Ok_0)
}

/// Trees changed at one file contribute a common prefix, that file's
/// contents field, and a common suffix.
#[verifier::spinoff_prover]
proof fn lemma_changed_split(a: Seq<Node>, b: Seq<Node>, path: Seq<int>, parent: Seq<u8>) -> (r: (
    Seq<u8>,
    Seq<u8>,
    Seq<u8>,
    Seq<u8>,
))
    requires
        changed_at(a, b, path),
        children_bytes(a, sorted_indices(a, a.len()), 0, parent) is Ok,
        children_bytes(b, sorted_indices(b, b.len()), 0, parent) is Ok,
    ensures
        r.1 != r.2,
        r.1.len() <= u64::MAX,
        r.2.len() <= u64::MAX,
        children_bytes(a, sorted_indices(a, a.len()), 0, parent)->Ok_0 == r.0 + field(
            encode_utf8("contents"@),
            r.1,
        ) + r.3,
        children_bytes(b, sorted_indices(b, b.len()), 0, parent)->Ok_0 == r.0 + field(
            encode_utf8("contents"@),
            r.2,
        ) + r.3,
    decreases path.len(),
{
    let j = path[0];
    let rel = child_path(parent, name_of(a[j]));
    let cf = encode_utf8("contents"@);
    match a[j] {
        Node::File { name: n1, contents: c1 } => match b[j] {
            Node::File { name: n2, contents: c2 } => {
                let (pre, post) = lemma_children_at(a, b, j, parent);
                let head = pre + field(encode_utf8("file"@), path_bytes(rel));
                assert(c1.len() == c1@.len() && c2.len() == c2@.len());
                assert(children_bytes(a, sorted_indices(a, a.len()), 0, parent)->Ok_0 =~= head + field(cf, c1@) + post);
                assert(children_bytes(b, sorted_indices(b, b.len()), 0, parent)->Ok_0 =~= head + field(cf, c2@) + post);
                (head, c1@, c2@, post)
            },
            _ => {
                assert(false);
                (seq![], seq![], seq![], seq![])
            },
        },
        Node::Dir { name: n1, children: k1 } => match b[j] {
            Node::Dir { name: n2, children: k2 } => {
                let (pre, post) = lemma_children_at(a, b, j, parent);
                let da = field(encode_utf8("dir"@), path_bytes(rel));
                let inner = lemma_changed_split(k1@, k2@, path.drop_first(), rel);
                let head = pre + da + inner.0;
                let tail = inner.3 + post;
                assert(children_bytes(a, sorted_indices(a, a.len()), 0, parent)->Ok_0 =~= head + field(cf, inner.1) + tail);
                assert(children_bytes(b, sorted_indices(b, b.len()), 0, parent)->Ok_0 =~= head + field(cf, inner.2) + tail);
                (head, inner.1, inner.2, tail)
            },
            _ => {
                assert(false);
                (seq![], seq![], seq![], seq![])
            },
        },
        _ => {
            assert(false);
            (seq![], seq![], seq![], seq![])
        },
    }
}

/// The generation covers the build context's contents: with the same
/// configuration and Containerfile, a build context that differs from
/// another only in the contents of one regular file gives another message.
#[verifier::spinoff_prover]
#[verifier::rlimit(40)]
pub proof fn lemma_message_covers_context(
    config: Config,
    i1: Inputs,
    i2: Inputs,
    k1: Vec<Node>,
    k2: Vec<Node>,
    path: Seq<int>,
)
    requires
        i1.containerfile@ == i2.containerfile@,
        i1.context == Some(k1),
        i2.context == Some(k2),
        changed_at(k1@, k2@, path),
        generation_message(config, i1) is Ok,
    ensures
        generation_message(config, i1) != generation_message(config, i2),
{
    if generation_message(config, i2) is Ok {
        let head = encode_utf8("nbac-generation-v1\0"@) + field(
            encode_utf8("containerfile"@),
            i1.containerfile@,
        );
        let tail = field(encode_utf8("ssh.user"@), encode_utf8(config.ssh.user@)) + field(
            encode_utf8("ssh.port"@),
            be16(config.ssh.port),
        ) + field(encode_utf8("machine.arch"@), encode_utf8(config.machine.arch_spec()));
        let r = lemma_changed_split(k1@, k2@, path, seq![]);
        let cf = encode_utf8("contents"@);
        let x = head + r.0;
        let m1 = generation_message(config, i1)->Ok_0;
        let m2 = generation_message(config, i2)->Ok_0;
        let rest = r.3 + tail;
        assert(m1 =~= x + (field(cf, r.1) + rest));
        assert(m2 =~= x + (field(cf, r.2) + rest));
        if m1 == m2 {
            assert(m1.skip(x.len() as int) =~= field(cf, r.1) + rest);
            assert(m2.skip(x.len() as int) =~= field(cf, r.2) + rest);
            lemma_field_prefix(cf, r.1, rest, r.2, rest);
        }
    }
}


/// Name order is total: of any two file names one sorts at or before the
/// other.
pub proof fn lemma_bytes_le_total(a: Seq<u8>, b: Seq<u8>)
    ensures
        bytes_le(a, b) || bytes_le(b, a),
    decreases a.len(),
{
    if a.len() > 0 && b.len() > 0 && a[0] == b[0] {
        lemma_bytes_le_total(a.drop_first(), b.drop_first());
    }
}

/// Name order is antisymmetric: names that sort at or before each other
/// are equal.
pub proof fn lemma_bytes_le_antisymmetric(a: Seq<u8>, b: Seq<u8>)
    requires
        bytes_le(a, b),
        bytes_le(b, a),
    ensures
        a == b,
    decreases a.len(),
{
    if a.len() > 0 && b.len() > 0 {
        lemma_bytes_le_antisymmetric(a.drop_first(), b.drop_first());
        assert(a =~= seq![a[0]] + a.drop_first());
        assert(b =~= seq![b[0]] + b.drop_first());
    } else if a.len() == 0 && b.len() == 0 {
        assert(a =~= b);
    }
}

/// Name order is transitive.
pub proof fn lemma_bytes_le_transitive(a: Seq<u8>, b: Seq<u8>, c: Seq<u8>)
    requires
        bytes_le(a, b),
        bytes_le(b, c),
    ensures
        bytes_le(a, c),
    decreases a.len(),
{
    if a.len() > 0 && b.len() > 0 && c.len() > 0 && a[0] == b[0] && b[0] == c[0] {
        lemma_bytes_le_transitive(a.drop_first(), b.drop_first(), c.drop_first());
    }
}

/// Whether the indices `t` visit `kids` in name order.
pub open spec fn in_name_order(kids: Seq<Node>, t: Seq<int>) -> bool {
    forall|p: int, q: int|
        #![trigger t[p], t[q]]
        0 <= p < q < t.len() ==> bytes_le(name_of(kids[t[p]]), name_of(kids[t[q]]))
}

/// Inserting by name keeps the visit in name order.
#[verifier::spinoff_prover]
#[verifier::rlimit(40)]
proof fn lemma_insert_index_ordered(kids: Seq<Node>, j: int, t: Seq<int>)
    requires
        in_name_order(kids, t),
    ensures
        in_name_order(kids, insert_index(kids, j, t)),
    decreases t.len(),
{
    let r = insert_index(kids, j, t);
    lemma_insert_index_elems(kids, j, t);
    if t.len() == 0 {
    } else if bytes_le(name_of(kids[t.last()]), name_of(kids[j])) {
        assert forall|p: int, q: int| #![trigger r[p], r[q]] 0 <= p < q < r.len() implies bytes_le(
            name_of(kids[r[p]]),
            name_of(kids[r[q]]),
        ) by {
            if q == t.len() {
                if p < t.len() - 1 {
                    assert(t[p] == r[p]);
                    assert(bytes_le(name_of(kids[t[p]]), name_of(kids[t[t.len() - 1]])));
                    lemma_bytes_le_transitive(
                        name_of(kids[t[p]]),
                        name_of(kids[t.last()]),
                        name_of(kids[j]),
                    );
                }
            } else {
                assert(t[p] == r[p] && t[q] == r[q]);
            }
        }
    } else {
        let u = t.drop_last();
        assert(in_name_order(kids, u)) by {
            assert forall|p: int, q: int| #![trigger u[p], u[q]] 0 <= p < q < u.len() implies bytes_le(
                name_of(kids[u[p]]),
                name_of(kids[u[q]]),
            ) by {
                assert(u[p] == t[p] && u[q] == t[q]);
            }
        }
        lemma_insert_index_ordered(kids, j, u);
        lemma_insert_index_elems(kids, j, u);
        let ru = insert_index(kids, j, u);
        let last = t.last();
        lemma_bytes_le_total(name_of(kids[last]), name_of(kids[j]));
        assert forall|p: int, q: int| #![trigger r[p], r[q]] 0 <= p < q < r.len() implies bytes_le(
            name_of(kids[r[p]]),
            name_of(kids[r[q]]),
        ) by {
            if q == ru.len() {
                let x = ru[p];
                assert(r[p] == x);
                assert(ru.contains(x));
                if x != j {
                    assert(u.contains(x));
                    let k = choose|k: int| 0 <= k < u.len() && u[k] == x;
                    assert(t[k] == x);
                    assert(bytes_le(name_of(kids[t[k]]), name_of(kids[t[t.len() - 1]])));
                }
            } else {
                assert(r[p] == ru[p] && r[q] == ru[q]);
            }
        }
    }
}

/// The order the build context is hashed in visits names in order: every
/// entry sorts at or before every entry hashed after it, whatever order the
/// directory listed them in.
pub proof fn lemma_sorted_indices_ordered(kids: Seq<Node>, n: nat)
    ensures
        in_name_order(kids, sorted_indices(kids, n)),
    decreases n,
{
    if n > 0 {
        lemma_sorted_indices_ordered(kids, (n - 1) as nat);
        lemma_insert_index_ordered(kids, n - 1, sorted_indices(kids, (n - 1) as nat));
    }
}

/// Whether the reordering `perm` lists entry `x`.
pub open spec fn listed(perm: Seq<int>, x: int) -> bool {
    exists|i: int| 0 <= i < perm.len() && #[trigger] perm[i] == x
}

/// Whether the names in `kids` are pairwise distinct, as in a directory.
pub open spec fn distinct_names(kids: Seq<Node>) -> bool {
    forall|i: int, j: int|
        #![trigger kids[i], kids[j]]
        0 <= i < kids.len() && 0 <= j < kids.len() && i != j ==> name_of(kids[i]) != name_of(kids[j])
}

/// Entry lists visited in the same node order contribute alike.
proof fn lemma_children_same_visit(
    a: Seq<Node>,
    oa: Seq<int>,
    b: Seq<Node>,
    ob: Seq<int>,
    k: nat,
    parent: Seq<u8>,
)
    requires
        oa.len() == ob.len(),
        forall|m: int| 0 <= m < oa.len() ==> 0 <= #[trigger] oa[m] < a.len() && 0 <= ob[m] < b.len() && a[oa[m]] == b[ob[m]],
    ensures
        children_bytes(a, oa, k, parent) == children_bytes(b, ob, k, parent),
    decreases oa.len() - k,
{
    if k < oa.len() {
        assert(a[oa[k as int]] == b[ob[k as int]]);
        lemma_children_same_visit(a, oa, b, ob, k + 1, parent);
    }
}

/// The build context's entries are hashed in the same order however the
/// directory listed them: for two listings of the same entries (each a
/// reordering of the other, names distinct), the entries are visited alike.
proof fn lemma_visit_order_unique(a: Seq<Node>, b: Seq<Node>, perm: Seq<int>)
    requires
        a.len() == b.len(),
        perm.len() == a.len(),
        forall|i: int| 0 <= i < b.len() ==> 0 <= #[trigger] perm[i] < a.len() && b[i] == a[perm[i]],
        forall|x: int| 0 <= x < a.len() ==> #[trigger] listed(perm, x),
        distinct_names(a),
        distinct_names(b),
    ensures
        forall|p: int|
            0 <= p < a.len() ==> #[trigger] a[sorted_indices(a, a.len())[p]] == b[sorted_indices(
                b,
                b.len(),
            )[p]],
{
    let n = a.len();
    let oa = sorted_indices(a, n);
    let ob = sorted_indices(b, n);
    lemma_sorted_indices_perm(a, n);
    lemma_sorted_indices_perm(b, n);
    lemma_sorted_indices_ordered(a, n);
    lemma_sorted_indices_ordered(b, n);
    assert forall|m: int| 0 <= m < n implies 0 <= #[trigger] oa[m] < n && 0 <= ob[m] < n by {
        assert(oa.contains(oa[m]));
        assert(ob.contains(ob[m]));
    }
    assert forall|m: int| 0 <= m < b.len() implies 0 <= #[trigger] sorted_indices(b, b.len())[m] < b.len() by {
        assert(ob.contains(ob[m]));
    }
    lemma_visit_prefix(a, b, perm, n as int);
}

#[verifier::spinoff_prover]
#[verifier::rlimit(40)]
proof fn lemma_visit_prefix(a: Seq<Node>, b: Seq<Node>, perm: Seq<int>, p: int)
    requires
        a.len() == b.len(),
        perm.len() == a.len(),
        0 <= p <= a.len(),
        forall|i: int| 0 <= i < b.len() ==> 0 <= #[trigger] perm[i] < a.len() && b[i] == a[perm[i]],
        forall|x: int| 0 <= x < a.len() ==> #[trigger] listed(perm, x),
        distinct_names(a),
        distinct_names(b),
        sorted_indices(a, a.len()).len() == a.len(),
        sorted_indices(b, b.len()).len() == b.len(),
        sorted_indices(a, a.len()).no_duplicates(),
        sorted_indices(b, b.len()).no_duplicates(),
        forall|x: int| #[trigger] sorted_indices(a, a.len()).contains(x) <==> 0 <= x < a.len(),
        forall|x: int| #[trigger] sorted_indices(b, b.len()).contains(x) <==> 0 <= x < b.len(),
        in_name_order(a, sorted_indices(a, a.len())),
        in_name_order(b, sorted_indices(b, b.len())),
        forall|m: int| 0 <= m < a.len() ==> 0 <= #[trigger] sorted_indices(a, a.len())[m] < a.len(),
        forall|m: int| 0 <= m < b.len() ==> 0 <= #[trigger] sorted_indices(b, b.len())[m] < b.len(),
    ensures
        forall|m: int|
            0 <= m < p ==> #[trigger] a[sorted_indices(a, a.len())[m]] == b[sorted_indices(b, b.len())[m]],
    decreases p,
{
    if p > 0 {
        let n = a.len();
        let oa = sorted_indices(a, n);
        let ob = sorted_indices(b, n);
        lemma_visit_prefix(a, b, perm, p - 1);
        let c = p - 1;
        let x = a[oa[c]];
        let y = b[ob[c]];
        // where x sits in b's visit
        assert(listed(perm, oa[c]));
        let xi = choose|i: int| 0 <= i < perm.len() && #[trigger] perm[i] == oa[c];
        assert(b[xi] == x);
        assert(ob.contains(xi));
        let q = choose|q: int| 0 <= q < ob.len() && ob[q] == xi;
        assert(b[ob[q]] == x);
        // where y sits in a's visit
        let yi = perm[ob[c]];
        assert(a[yi] == y);
        assert(oa.contains(yi));
        let r = choose|r: int| 0 <= r < oa.len() && oa[r] == yi;
        assert(a[oa[r]] == y);
        if x != y {
            if q < c {
                assert(a[oa[q]] == b[ob[q]]);
                assert(oa[q] != oa[c]);
                assert(name_of(a[oa[q]]) != name_of(a[oa[c]]));
            }
            if r < c {
                assert(a[oa[r]] == b[ob[r]]);
                assert(ob[r] != ob[c]);
                assert(name_of(b[ob[r]]) != name_of(b[ob[c]]));
            }
            if q == c {
                assert(b[ob[c]] == x);
            }
            if r == c {
                assert(a[oa[c]] == y);
            }
            assert(q > c && r > c);
            assert(bytes_le(name_of(b[ob[c]]), name_of(b[ob[q]])));
            assert(bytes_le(name_of(a[oa[c]]), name_of(a[oa[r]])));
            lemma_bytes_le_antisymmetric(name_of(x), name_of(y));
            assert(oa[r] != oa[c]);
            assert(name_of(a[oa[r]]) != name_of(a[oa[c]]));
        }
    }
}

/// The generation does not depend on the order the build context's top
/// directory listed its entries in: two listings of the same entries
/// (names distinct, as in a directory) give the same message.
#[verifier::spinoff_prover]
#[verifier::rlimit(40)]
pub proof fn lemma_message_ignores_listing_order(
    config: Config,
    i1: Inputs,
    i2: Inputs,
    k1: Vec<Node>,
    k2: Vec<Node>,
    perm: Seq<int>,
)
    requires
        i1.containerfile@ == i2.containerfile@,
        i1.context == Some(k1),
        i2.context == Some(k2),
        k1@.len() == k2@.len(),
        perm.len() == k1@.len(),
        forall|i: int| 0 <= i < k2@.len() ==> 0 <= #[trigger] perm[i] < k1@.len() && k2@[i] == k1@[perm[i]],
        forall|x: int| 0 <= x < k1@.len() ==> #[trigger] listed(perm, x),
        distinct_names(k1@),
        distinct_names(k2@),
    ensures
        generation_message(config, i1) == generation_message(config, i2),
{
    let a = k1@;
    let b = k2@;
    let n = a.len();
    lemma_visit_order_unique(a, b, perm);
    let oa = sorted_indices(a, n);
    let ob = sorted_indices(b, n);
    lemma_sorted_indices_perm(a, n);
    lemma_sorted_indices_perm(b, n);
    assert forall|m: int| 0 <= m < oa.len() implies 0 <= #[trigger] oa[m] < a.len() && 0 <= ob[m] < b.len()
        && a[oa[m]] == b[ob[m]] by {
        assert(oa.contains(oa[m]));
        assert(ob.contains(ob[m]));
        assert(a[oa[m]] == b[ob[m]]);
    }
    lemma_children_same_visit(a, oa, b, ob, 0, seq![]);
}

} // verus!

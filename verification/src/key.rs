//! The cache key of a command.
//!
//! The key names the cache entry of one command in one working directory.
//! It is the BLAKE2s-256 digest, in lowercase hexadecimal, of the arguments
//! of the command, one after the other without a separator, followed by the
//! bytes of the working directory. The first element of the command, the
//! name of the program, does not enter into it.

use vstd::prelude::*;
use vstd::utf8::encode_utf8;
use blake2::Digest;
use crate::bytes::append;

verus! {

/// The BLAKE2s-256 digest of `data`.
pub uninterp spec fn blake2s256(data: Seq<u8>) -> Seq<u8>;

/// The number of bytes of a BLAKE2s-256 digest.
pub const DIGEST_LEN: usize = 32;

/// The sixteen digits of lowercase hexadecimal.
pub open spec fn hex_digits() -> Seq<char> {
    seq!['0', '1', '2', '3', '4', '5', '6', '7', '8', '9', 'a', 'b', 'c', 'd', 'e', 'f']
}

/// Lowercase hexadecimal: two digits for each byte, the high half first.
pub open spec fn hex_lower(data: Seq<u8>) -> Seq<char> {
    Seq::new(
        2 * data.len(),
        |i: int|
            if i % 2 == 0 {
                hex_digits()[data[i / 2] as int / 16]
            } else {
                hex_digits()[data[i / 2] as int % 16]
            },
    )
}

/// The characters of each string.
pub open spec fn texts(strings: Seq<String>) -> Seq<Seq<char>> {
    strings.map_values(|s: String| s@)
}

/// The bytes of each argument.
pub open spec fn utf8_of(args: Seq<Seq<char>>) -> Seq<Seq<u8>> {
    args.map_values(|a: Seq<char>| encode_utf8(a))
}

/// What of a command enters into its key: all but its first element.
pub open spec fn arguments_of(command: Seq<Seq<u8>>) -> Seq<Seq<u8>> {
    if command.len() > 0 {
        command.skip(1)
    } else {
        command
    }
}

/// The bytes that are hashed: the arguments, then the working directory.
pub open spec fn key_material(command: Seq<Seq<u8>>, cwd: Seq<u8>) -> Seq<u8> {
    arguments_of(command).flatten() + cwd
}

/// The key of `command` in the working directory `cwd`.
pub open spec fn cache_key(command: Seq<Seq<u8>>, cwd: Seq<u8>) -> Seq<char> {
    hex_lower(blake2s256(key_material(command, cwd)))
}

/// Two sequences of byte strings with as many elements, of the same
/// lengths.
pub open spec fn same_shape(a: Seq<Seq<u8>>, b: Seq<Seq<u8>>) -> bool {
    &&& a.len() == b.len()
    &&& forall|i: int| 0 <= i < a.len() ==> (#[trigger] a[i]).len() == b[i].len()
}

/// A text of hexadecimal digits and nothing else. Such a text can name a
/// file: it has no slash and no NUL in it.
pub open spec fn is_hex(text: Seq<char>) -> bool {
    forall|i: int| 0 <= i < text.len() ==> hex_digits().contains(#[trigger] text[i])
}

/// The hexadecimal form of any bytes is made of hexadecimal digits.
pub proof fn lemma_hex_lower_is_hex(data: Seq<u8>)
    ensures
        is_hex(hex_lower(data)),
{
    let text = hex_lower(data);
    assert forall|i: int| 0 <= i < text.len() implies hex_digits().contains(#[trigger] text[i]) by {
        let b = data[i / 2] as int;
        assert(0 <= b / 16 < 16 && 0 <= b % 16 < 16);
    }
}

/// Different bytes have different hexadecimal forms.
pub proof fn lemma_hex_injective(a: Seq<u8>, b: Seq<u8>)
    requires
        hex_lower(a) == hex_lower(b),
    ensures
        a == b,
{
    assert(hex_lower(a).len() == 2 * a.len());
    assert forall|i: int| 0 <= i < a.len() implies a[i] == b[i] by {
        let x = a[i] as int;
        let y = b[i] as int;
        assert(hex_lower(a)[2 * i] == hex_digits()[x / 16]);
        assert(hex_lower(a)[2 * i + 1] == hex_digits()[x % 16]);
        lemma_hex_digits_differ(x / 16, y / 16);
        lemma_hex_digits_differ(x % 16, y % 16);
    }
}

/// The sixteen digits are all different.
proof fn lemma_hex_digits_differ(m: int, n: int)
    requires
        0 <= m < 16,
        0 <= n < 16,
        hex_digits()[m] == hex_digits()[n],
    ensures
        m == n,
{
    let d = hex_digits();
}

/// Two keys are equal exactly if the digests behind them are.
pub proof fn lemma_key_follows_digest(
    command1: Seq<Seq<u8>>,
    cwd1: Seq<u8>,
    command2: Seq<Seq<u8>>,
    cwd2: Seq<u8>,
)
    ensures
        cache_key(command1, cwd1) == cache_key(command2, cwd2) <==> blake2s256(
            key_material(command1, cwd1),
        ) == blake2s256(key_material(command2, cwd2)),
{
    if cache_key(command1, cwd1) == cache_key(command2, cwd2) {
        lemma_hex_injective(
            blake2s256(key_material(command1, cwd1)),
            blake2s256(key_material(command2, cwd2)),
        );
    }
}

/// The name of the program does not enter into the key.
pub proof fn lemma_program_name_ignored(program1: Seq<u8>, program2: Seq<u8>, rest: Seq<Seq<u8>>, cwd: Seq<u8>)
    ensures
        cache_key(seq![program1] + rest, cwd) == cache_key(seq![program2] + rest, cwd),
{
    assert((seq![program1] + rest).skip(1) =~= rest);
    assert((seq![program2] + rest).skip(1) =~= rest);
}

/// Of two sequences of the same shape, different ones have different
/// concatenations.
pub proof fn lemma_flatten_same_shape(a: Seq<Seq<u8>>, b: Seq<Seq<u8>>)
    requires
        same_shape(a, b),
        a.flatten() == b.flatten(),
    ensures
        a == b,
    decreases a.len(),
{
    if a.len() > 0 {
        let fa = a.drop_first().flatten();
        let fb = b.drop_first().flatten();
        let n = a.first().len() as int;
        assert(a.first() =~= a.flatten().take(n));
        assert(b.first() =~= b.flatten().take(n));
        assert(fa =~= a.flatten().skip(n));
        assert(fb =~= b.flatten().skip(n));
        assert(same_shape(a.drop_first(), b.drop_first()));
        lemma_flatten_same_shape(a.drop_first(), b.drop_first());
        assert(a =~= seq![a.first()] + a.drop_first());
    }
}

/// A change to the bytes of the arguments that leaves their number and
/// their lengths as they are, or any change to the working directory
/// behind the same arguments, changes the bytes that are hashed.
pub proof fn lemma_key_material_differs(
    command1: Seq<Seq<u8>>,
    cwd1: Seq<u8>,
    command2: Seq<Seq<u8>>,
    cwd2: Seq<u8>,
)
    requires
        same_shape(arguments_of(command1), arguments_of(command2)),
        arguments_of(command1) != arguments_of(command2) || cwd1 != cwd2,
    ensures
        key_material(command1, cwd1) != key_material(command2, cwd2),
{
    let a = arguments_of(command1);
    let b = arguments_of(command2);
    if key_material(command1, cwd1) == key_material(command2, cwd2) {
        lemma_flatten_shape_length(a, b);
        let n = a.flatten().len() as int;
        assert(a.flatten() =~= key_material(command1, cwd1).take(n));
        assert(b.flatten() =~= key_material(command2, cwd2).take(n));
        assert(cwd1 =~= key_material(command1, cwd1).skip(n));
        assert(cwd2 =~= key_material(command2, cwd2).skip(n));
        lemma_flatten_same_shape(a, b);
    }
}

/// Sequences of the same shape have concatenations of the same length.
proof fn lemma_flatten_shape_length(a: Seq<Seq<u8>>, b: Seq<Seq<u8>>)
    requires
        same_shape(a, b),
    ensures
        a.flatten().len() == b.flatten().len(),
    decreases a.len(),
{
    if a.len() > 0 {
        assert(same_shape(a.drop_first(), b.drop_first()));
        lemma_flatten_shape_length(a.drop_first(), b.drop_first());
    }
}

/// The digest of `data`, from `blake2::Blake2s256::digest`.
///
/// Trusted: the result is a function of the bytes alone, which goes by the
/// name `blake2s256`, and it is 32 bytes long.
#[verifier::external_body]
fn blake2s256_digest(data: &[u8]) -> (digest: Vec<u8>)
    ensures
        digest@ == blake2s256(data@),
        digest@.len() == DIGEST_LEN,
{
    blake2::Blake2s256::digest(data).to_vec()
}

/// The lowercase hexadecimal form of `data`, from `hex::encode`.
///
/// Trusted: each byte becomes two characters, the digit of its high half
/// and then the digit of its low half, out of `0123456789abcdef`.
#[verifier::external_body]
fn hex_encode(data: &[u8]) -> (text: String)
    ensures
        text@ == hex_lower(data@),
{
    hex::encode(data)
}

/// The bytes that are hashed for `command` in the working directory `cwd`.
pub fn hashed_bytes(command: &[String], cwd: &[u8]) -> (material: Vec<u8>)
    ensures
        material@ == key_material(utf8_of(texts(command@)), cwd@),
{
    let ghost args = arguments_of(utf8_of(texts(command@)));
    let mut material: Vec<u8> = Vec::new();
    let mut i: usize = 1;
    while i < command.len()
        invariant
            1 <= i,
            i <= command.len() || command.len() == 0,
            args == arguments_of(utf8_of(texts(command@))),
            command.len() > 0 ==> material@ == args.take(i - 1).flatten(),
            command.len() == 0 ==> material@ == Seq::<u8>::empty(),
        decreases command.len() - i,
    {
        let arg: &[u8] = command[i].as_str().as_bytes();
        append(&mut material, arg);
        proof {
            assert(args.take(i as int) =~= args.take(i - 1).push(arg@));
            args.take(i - 1).lemma_flatten_push(arg@);
        }
        i = i + 1;
    }
    proof {
        if command.len() > 0 {
            assert(args.take(command.len() - 1) =~= args);
        }
    }
    append(&mut material, cwd);
    material
}

/// The key that stands for `digest`: its lowercase hexadecimal form.
pub fn encode_key(digest: &[u8]) -> (key: String)
    ensures
        key@ == hex_lower(digest@),
        key@.len() == 2 * digest@.len(),
        is_hex(key@),
{
    proof {
        lemma_hex_lower_is_hex(digest@);
    }
    hex_encode(digest)
}

/// The cache key of `command` in the working directory `cwd`.
///
/// The same command in the same directory always has the same key. The
/// key is 64 hexadecimal digits long.
pub fn get_cache_key(command: &[String], cwd: &[u8]) -> (key: String)
    ensures
        key@ == cache_key(utf8_of(texts(command@)), cwd@),
        key@.len() == 2 * DIGEST_LEN,
        is_hex(key@),
{
    let material = hashed_bytes(command, cwd);
    let digest = blake2s256_digest(material.as_slice());
    encode_key(digest.as_slice())
}

} // verus!

use crate::arrays::{bytes32, read_array32};
use crate::base_types::{AuthorityName, KeyPair, Pubkey, ShardId};
use crate::committee::{
    distinct_names, in_order, lemma_sum_of_votes_prefix, sum_of_votes, weight_in, Committee,
};
use crate::crypto::spec_public_key;
use crate::error::{FastPayError, FastPayErrorView};
use rand::TryRngCore;
use vstd::prelude::*;
use vstd::string::StringExecFns;
use vstd::utf8::encode_utf8;

verus! {

/// The value of a hexadecimal digit, in either case.
pub open spec fn hex_digit_value(digit: u8) -> Option<u8> {
    if 48 <= digit <= 57 {
        Some((digit - 48) as u8)
    } else if 97 <= digit <= 102 {
        Some((digit - 87) as u8)
    } else if 65 <= digit <= 70 {
        Some((digit - 55) as u8)
    } else {
        None
    }
}

/// Whether `text` is made of pairs of hexadecimal digits.
pub open spec fn is_hex(text: Seq<u8>) -> bool {
    &&& text.len() % 2 == 0
    &&& forall|i: int| 0 <= i < text.len() ==> hex_digit_value(#[trigger] text[i]) is Some
}

/// The bytes that the pairs of hexadecimal digits of `text` stand for.
pub open spec fn hex_bytes(text: Seq<u8>) -> Seq<u8> {
    Seq::new(
        text.len() / 2,
        |i: int|
            (hex_digit_value(text[2 * i]).unwrap() * 16 + hex_digit_value(
                text[2 * i + 1],
            ).unwrap()) as u8,
    )
}

/// The hexadecimal digit of a value under 16, in lower case.
pub open spec fn hex_digit(value: int) -> char {
    if value < 10 {
        (48 + value) as u8 as char
    } else {
        (87 + value) as u8 as char
    }
}

/// The bytes of `bytes` as pairs of hexadecimal digits in lower case.
pub open spec fn hex_text(bytes: Seq<u8>) -> Seq<char> {
    Seq::new(
        2 * bytes.len(),
        |i: int|
            if i % 2 == 0 {
                hex_digit(bytes[i / 2] as int / 16)
            } else {
                hex_digit(bytes[i / 2] as int % 16)
            },
    )
}

/// What is wrong with a text that is not made of pairs of hexadecimal digits,
/// in the words of the decoder.
pub uninterp spec fn spec_hex_error(text: Seq<u8>) -> Seq<char>;

/// `text` without the white space at its two ends.
pub uninterp spec fn spec_trim(text: Seq<char>) -> Seq<char>;

/// `hex::decode`: succeeds exactly on pairs of hexadecimal digits, upper or
/// lower case, and gives the byte of each pair, the first digit being the
/// upper half; else it describes the first fault by the error's `Display`.
#[verifier::external_body]
fn hex_decode(text: &[u8]) -> (decoded: Result<Vec<u8>, String>)
    ensures
        decoded is Ok <==> is_hex(text@),
        decoded matches Ok(bytes) ==> bytes@ == hex_bytes(text@),
        decoded matches Err(fault) ==> fault@ == spec_hex_error(text@),
{
    hex::decode(text).map_err(|error| error.to_string())
}

/// `hex::encode`: two hexadecimal digits in lower case for each byte, the upper
/// half first.
#[verifier::external_body]
fn hex_encode(bytes: &[u8]) -> (text: String)
    ensures
        text@ == hex_text(bytes@),
{
    hex::encode(bytes)
}

/// `str::trim`: the text without leading and trailing white space; what counts
/// as white space is Unicode's matter.
#[verifier::external_body]
fn trimmed(text: &str) -> (inner: &str)
    ensures
        inner@ == spec_trim(text@),
{
    text.trim()
}

/// The 32 bytes that `text` holds in hexadecimal, white space at its ends
/// aside; else the reason why it holds none.
pub open spec fn spec_decode_key(text: Seq<char>, what: Seq<char>) -> Result<
    [u8; 32],
    FastPayErrorView,
> {
    let digits = encode_utf8(spec_trim(text));
    if !is_hex(digits) {
        Err(FastPayErrorView::ConfigurationError { error: spec_hex_error(digits) })
    } else if hex_bytes(digits).len() != 32 {
        Err(FastPayErrorView::ConfigurationError { error: what })
    } else {
        Ok(bytes32(hex_bytes(digits)))
    }
}

fn decode_key(text: &str, what: &str) -> (result: Result<[u8; 32], FastPayError>)
    ensures
        match result {
            Ok(key) => spec_decode_key(text@, what@) == Ok::<[u8; 32], FastPayErrorView>(key),
            Err(error) => spec_decode_key(text@, what@) == Err::<[u8; 32], FastPayErrorView>(
                error@,
            ),
        },
{
    let digits = trimmed(text);
    let bytes = match hex_decode(digits.as_bytes()) {
        Ok(bytes) => bytes,
        Err(fault) => {
            return Err(FastPayError::ConfigurationError { error: fault });
        },
    };
    if bytes.len() != 32 {
        return Err(FastPayError::ConfigurationError { error: String::from_str(what) });
    }
    assert(bytes@.subrange(0, 32) == bytes@);
    let key = read_array32(bytes.as_slice(), 0);
    Ok(key)
}

/// Reads the name of an authority: a public key of 32 bytes in hexadecimal.
pub fn decode_authority_name(name: &str) -> (result: Result<Pubkey, FastPayError>)
    ensures
        match result {
            Ok(key) => spec_decode_key(name@, "Invalid public key length"@) == Ok::<
                [u8; 32],
                FastPayErrorView,
            >(key.0),
            Err(error) => spec_decode_key(name@, "Invalid public key length"@) == Err::<
                [u8; 32],
                FastPayErrorView,
            >(error@),
        },
{
    match decode_key(name, "Invalid public key length") {
        Ok(bytes) => Ok(Pubkey(bytes)),
        Err(error) => Err(error),
    }
}

/// Reads a secret key: a seed of 32 bytes in hexadecimal.
pub fn decode_secret_key(secret_key: &str) -> (result: Result<KeyPair, FastPayError>)
    ensures
        match result {
            Ok(pair) => spec_decode_key(secret_key@, "Invalid secret key length"@) == Ok::<
                [u8; 32],
                FastPayErrorView,
            >(pair.seed()),
            Err(error) => spec_decode_key(secret_key@, "Invalid secret key length"@) == Err::<
                [u8; 32],
                FastPayErrorView,
            >(error@),
        },
{
    match decode_key(secret_key, "Invalid secret key length") {
        Ok(seed) => Ok(KeyPair::from(seed)),
        Err(error) => Err(error),
    }
}

/// Writes a public key in hexadecimal, lower case.
pub fn encode_public_key(key: &Pubkey) -> (text: String)
    ensures
        text@ == hex_text(key.0@),
{
    hex_encode(key.0.as_slice())
}

/// Writes a secret seed in hexadecimal, lower case.
pub fn encode_secret_key(key: &[u8; 32]) -> (text: String)
    ensures
        text@ == hex_text(key@),
{
    hex_encode(key.as_slice())
}

/// `rand::rngs::OsRng` with `try_fill_bytes`: 32 bytes from the operating
/// system, or nothing where it has none to give. Nothing is claimed of the
/// bytes: they are chance.
#[verifier::external_body]
fn random_seed() -> (seed: Option<[u8; 32]>) {
    let mut seed = [0u8; 32];
    rand::rngs::OsRng.try_fill_bytes(&mut seed).ok().map(|_| seed)
}

/// Asks the operating system for a random seed and returns what
/// `keypair_of_seed` makes of the answer: the public key and the seed of a
/// fresh key pair, or nothing where the operating system gives no randomness.
pub fn generate_keypair() -> (pair: Option<(Pubkey, [u8; 32])>)
    ensures
        pair matches Some((public, secret)) ==> public.0 == spec_public_key(secret),
{
    keypair_of_seed(random_seed())
}

/// The public key and the secret seed of the key pair that a seed makes;
/// nothing where there is no seed.
pub open spec fn spec_keypair_of_seed(seed: Option<[u8; 32]>) -> Option<(Pubkey, [u8; 32])> {
    match seed {
        Some(secret) => Some((Pubkey(spec_public_key(secret)), secret)),
        None => None,
    }
}

/// Makes the key pair of `seed`, and returns its public key with the seed;
/// nothing where there is no seed.
pub fn keypair_of_seed(seed: Option<[u8; 32]>) -> (pair: Option<(Pubkey, [u8; 32])>)
    ensures
        pair == spec_keypair_of_seed(seed),
{
    match seed {
        Some(secret) => {
            let keypair = KeyPair::from(secret);
            Some((keypair.public(), secret))
        },
        None => None,
    }
}

/// The port on which the shard `shard` of an authority listens, given the port
/// of its first shard: that port plus the number of the shard, if there is
/// such a port.
pub fn shard_port(port: u16, shard: ShardId) -> (listening: Option<u16>)
    ensures
        match listening {
            Some(listening) => listening == port + shard,
            None => port + shard > u16::MAX,
        },
{
    if shard <= (u16::MAX - port) as u32 {
        Some(port + shard as u16)
    } else {
        None
    }
}

/// One authority in the descriptor of a committee.
pub struct AuthorityEntry {
    /// The public key of the authority, in hexadecimal.
    pub name: String,
    pub host: String,
    /// The port of the first shard.
    pub port: u16,
    /// The voting right.
    pub weight: u64,
    pub num_shards: u32,
}

/// The list `rights` without the entries of `name`.
pub open spec fn without_name(rights: Seq<(AuthorityName, usize)>, name: AuthorityName) -> Seq<
    (AuthorityName, usize),
>
    decreases rights.len(),
{
    if rights.len() == 0 {
        rights
    } else if rights.last().0 == name {
        without_name(rights.drop_last(), name)
    } else {
        without_name(rights.drop_last(), name).push(rights.last())
    }
}

/// The error of a voting right that the machine cannot count.
pub open spec fn weight_out_of_range() -> FastPayErrorView {
    FastPayErrorView::ConfigurationError { error: "Voting right out of range"@ }
}

/// The voting rights that the entries of a descriptor give, or the fault of
/// the first entry that has one: an entry gives its voting right to its
/// authority, in place of what an earlier entry gave to it.
pub open spec fn spec_voting_rights(entries: Seq<AuthorityEntry>) -> Result<
    Seq<(AuthorityName, usize)>,
    FastPayErrorView,
>
    decreases entries.len(),
{
    if entries.len() == 0 {
        Ok(Seq::empty())
    } else {
        match spec_voting_rights(entries.drop_last()) {
            Err(error) => Err(error),
            Ok(rights) => match spec_decode_key(
                entries.last().name@,
                "Invalid public key length"@,
            ) {
                Err(error) => Err(error),
                Ok(key) => if entries.last().weight > usize::MAX {
                    Err(weight_out_of_range())
                } else {
                    Ok(
                        without_name(rights, Pubkey(key)).push(
                            (Pubkey(key), entries.last().weight as usize),
                        ),
                    )
                },
            },
        }
    }
}

/// What is left of a list without a name holds no entry of that name, and
/// only entries of the list, in their order; so it repeats no name if the list
/// repeats none.
proof fn lemma_without_name(rights: Seq<(AuthorityName, usize)>, name: AuthorityName)
    ensures
        forall|i: int|
            0 <= i < without_name(rights, name).len() ==> (#[trigger] without_name(
                rights,
                name,
            )[i]).0 != name,
        forall|i: int|
            0 <= i < without_name(rights, name).len() ==> exists|j: int|
                0 <= j < rights.len() && rights[j] == #[trigger] without_name(rights, name)[i],
        distinct_names(rights) ==> distinct_names(without_name(rights, name)),
    decreases rights.len(),
{
    if rights.len() > 0 {
        let earlier = rights.drop_last();
        let rest = without_name(rights, name);
        let before = without_name(earlier, name);
        lemma_without_name(earlier, name);
        assert forall|i: int| 0 <= i < rest.len() implies exists|j: int|
            0 <= j < rights.len() && rights[j] == #[trigger] rest[i] by {
            if i < before.len() {
                let j = choose|j: int| 0 <= j < earlier.len() && earlier[j] == before[i];
                assert(rights[j] == rest[i]);
            } else {
                assert(rights[rights.len() - 1] == rest[i]);
            }
        }
        if distinct_names(rights) {
            assert forall|a: int, b: int| 0 <= a < b < earlier.len() implies earlier[a].0
                != earlier[b].0 by {
                assert(earlier[a] == rights[a] && earlier[b] == rights[b]);
            }
            if rights.last().0 != name {
                assert forall|a: int, b: int| 0 <= a < b < rest.len() implies rest[a].0
                    != rest[b].0 by {
                    if b == rest.len() - 1 {
                        let j = choose|j: int| 0 <= j < earlier.len() && earlier[j] == before[a];
                        assert(rights[j] == rest[a]);
                        assert(rights[j].0 != rights[rights.len() - 1].0);
                    } else {
                        assert(before[a].0 != before[b].0);
                    }
                }
            }
        }
    }
}

/// Takes the entries of `name` out of `rights`.
fn remove_name(rights: Vec<(AuthorityName, usize)>, name: &AuthorityName) -> (rest: Vec<
    (AuthorityName, usize),
>)
    ensures
        rest@ == without_name(rights@, *name),
{
    let mut rest: Vec<(AuthorityName, usize)> = Vec::new();
    let mut i: usize = 0;
    assert(rights@.subrange(0, 0) =~= Seq::<(AuthorityName, usize)>::empty());
    while i < rights.len()
        invariant
            i <= rights.len(),
            rest@ == without_name(rights@.subrange(0, i as int), *name),
        decreases rights.len() - i,
    {
        proof {
            let longer = rights@.subrange(0, i + 1);
            assert(longer.drop_last() =~= rights@.subrange(0, i as int));
            assert(longer.last() == rights[i as int]);
        }
        if !(rights[i].0 == *name) {
            rest.push(rights[i]);
        }
        i = i + 1;
    }
    assert(rights@.subrange(0, i as int) == rights@);
    rest
}

/// The error of voting rights whose sum the machine cannot count.
pub open spec fn total_out_of_range() -> FastPayErrorView {
    FastPayErrorView::ConfigurationError { error: "Total of voting rights out of range"@ }
}

/// Makes the committee that the entries of a descriptor describe: every
/// authority has the voting right that the entries give to it, and the total
/// is their sum. Fails with a `ConfigurationError` on the first entry whose
/// name is no public key in hexadecimal or whose voting right the machine
/// cannot count, and on voting rights whose sum it cannot count.
pub fn committee_from_entries(entries: &Vec<AuthorityEntry>) -> (result: Result<
    Committee,
    FastPayError,
>)
    ensures
        match spec_voting_rights(entries@) {
            Err(fault) => result matches Err(error) && error@ == fault,
            Ok(rights) => if sum_of_votes(rights) > usize::MAX {
                result matches Err(error) && error@ == total_out_of_range()
            } else {
                result matches Ok(committee) && {
                    &&& committee.wf()
                    &&& committee.voting_rights@ == in_order(rights)
                    &&& committee.total_votes == sum_of_votes(rights)
                    &&& forall|author: AuthorityName| #[trigger]
                        committee.spec_weight(author) == weight_in(rights, author)
                }
            },
        },
{
    let mut rights: Vec<(AuthorityName, usize)> = Vec::new();
    let mut i: usize = 0;
    assert(entries@.subrange(0, 0) =~= Seq::<AuthorityEntry>::empty());
    while i < entries.len()
        invariant
            i <= entries.len(),
            spec_voting_rights(entries@.subrange(0, i as int)) == Ok::<
                Seq<(AuthorityName, usize)>,
                FastPayErrorView,
            >(rights@),
            distinct_names(rights@),
        decreases entries.len() - i,
    {
        proof {
            let longer = entries@.subrange(0, i + 1);
            assert(longer.drop_last() =~= entries@.subrange(0, i as int));
            assert(longer.last() == entries[i as int]);
            if spec_voting_rights(longer) is Err {
                lemma_fault_of_prefix(entries@, i + 1);
            }
        }
        let name = match decode_authority_name(entries[i].name.as_str()) {
            Ok(name) => name,
            Err(error) => {
                return Err(error);
            },
        };
        if entries[i].weight > usize::MAX as u64 {
            return Err(
                FastPayError::ConfigurationError {
                    error: String::from_str("Voting right out of range"),
                },
            );
        }
        let weight = entries[i].weight as usize;
        proof {
            lemma_without_name(rights@, name);
            let rest = without_name(rights@, name);
            assert forall|a: int, b: int| 0 <= a < b < rest.push((name, weight)).len() implies rest.push(
                (name, weight),
            )[a].0 != rest.push((name, weight))[b].0 by {
                if b == rest.len() {
                    assert(rest[a].0 != name);
                } else {
                    assert(rest[a].0 != rest[b].0);
                }
            }
        }
        rights = remove_name(rights, &name);
        rights.push((name, weight));
        i = i + 1;
    }
    assert(entries@.subrange(0, i as int) == entries@);
    // The voting rights must add up.
    let mut total: usize = 0;
    let mut k: usize = 0;
    assert(rights@.subrange(0, 0) =~= Seq::<(AuthorityName, usize)>::empty());
    while k < rights.len()
        invariant
            k <= rights.len(),
            total == sum_of_votes(rights@.subrange(0, k as int)),
            distinct_names(rights@),
            spec_voting_rights(entries@) == Ok::<Seq<(AuthorityName, usize)>, FastPayErrorView>(
                rights@,
            ),
        decreases rights.len() - k,
    {
        proof {
            let longer = rights@.subrange(0, k + 1);
            assert(longer.drop_last() =~= rights@.subrange(0, k as int));
            assert(longer.last() == rights[k as int]);
            lemma_sum_of_votes_prefix(rights@, k + 1);
        }
        total = match total.checked_add(rights[k].1) {
            Some(total) => total,
            None => {
                return Err(
                    FastPayError::ConfigurationError {
                        error: String::from_str("Total of voting rights out of range"),
                    },
                );
            },
        };
        k = k + 1;
    }
    assert(rights@.subrange(0, k as int) == rights@);
    Ok(Committee::new(rights))
}

/// The fault of the first entries of a descriptor is the fault of all of it.
proof fn lemma_fault_of_prefix(entries: Seq<AuthorityEntry>, n: int)
    requires
        0 <= n <= entries.len(),
        spec_voting_rights(entries.subrange(0, n)) is Err,
    ensures
        spec_voting_rights(entries) == spec_voting_rights(entries.subrange(0, n)),
    decreases entries.len(),
{
    if n == entries.len() {
        assert(entries.subrange(0, n) == entries);
    } else {
        assert(entries.drop_last().subrange(0, n) == entries.subrange(0, n));
        lemma_fault_of_prefix(entries.drop_last(), n);
    }
}

} // verus!

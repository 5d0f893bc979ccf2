//! SCRAM authentication with SHA-512 and SHA-256, as the server side of the handshake.

use crate::crypto::{
    base64_encode, base64_of, hmac_sha256, hmac_sha256_of, hmac_sha512, hmac_sha512_of,
    pbkdf2_sha256, pbkdf2_sha256_of, pbkdf2_sha512, pbkdf2_sha512_of, random_bytes,
};
use crate::be_bytes::slice_of;
use crate::text::{chars_of, dec, push_dec, same_text, text_from_utf8, text_of};
use crate::text_split::{
    find_char, find_char_from, has_prefix, last_field, last_field_of,
    lemma_pieces_hold_no_separator, lemma_split_append, split, split_on, starts_with, text_after,
};
use vstd::prelude::*;
use vstd::string::*;
use vstd::utf8::{
    decode_utf8, encode_utf8, is_ascii_chars, is_ascii_chars_encode_utf8, valid_utf8,
};

verus! {

/// The number of rounds that the server asks for.
pub const ITERATIONS: u32 = 4096;

/// Which hash function is used.
#[derive(Debug, Clone, Copy, PartialEq, Eq, Structural)]
pub enum ScramVariant {
    Sha512,
    Sha256,
}

/// The state of a handshake.
#[derive(Debug)]
pub struct ScramState {
    pub variant: ScramVariant,
    /// The client's first message without its header.
    pub client_first_bare: String,
    /// The client's nonce, followed by the server's.
    pub combined_nonce: String,
    pub salt: Vec<u8>,
    pub iterations: u32,
    /// The server's first message.
    pub server_first: String,
    /// The name that the client claims.
    pub username: String,
    pub client_nonce: String,
}

/// The client's first message without its header: what follows `n,,` or `n,a=...,`.
pub open spec fn bare_of(msg: Seq<char>) -> Option<Seq<char>> {
    if starts_with(msg, "n,,"@) {
        Some(msg.subrange(3, msg.len() as int))
    } else if starts_with(msg, "n,"@) {
        match find_char(msg, ',', 2) {
            Some(p) => Some(msg.subrange(p + 1, msg.len() as int)),
            None => None,
        }
    } else {
        None
    }
}

/// The value of a field of a message, such as `r=`.
pub open spec fn field_of(msg: Seq<char>, prefix: Seq<char>) -> Seq<char> {
    last_field(split(msg, ','), prefix, split(msg, ',').len() as int)
}

/// Whether a message is a client's first message with a name and a nonce.
pub open spec fn is_client_first(msg: Seq<u8>) -> bool {
    valid_utf8(msg) && match bare_of(decode_utf8(msg)) {
        Some(bare) => field_of(bare, "n="@).len() > 0 && field_of(bare, "r="@).len() > 0,
        None => false,
    }
}

/// The server's first message.
pub open spec fn server_first_of(nonce: Seq<char>, salt: Seq<u8>) -> Seq<char> {
    "r="@ + nonce + ",s="@ + base64_of(salt) + ",i="@ + dec(ITERATIONS as nat)
}

/// The last place at or before `i` at which `,p=` stands.
pub open spec fn proof_place(msg: Seq<char>, i: int) -> Option<int>
    decreases i + 1,
{
    if i < 0 {
        None
    } else if i + 3 <= msg.len() && msg[i] == ',' && msg[i + 1] == 'p' && msg[i + 2] == '=' {
        Some(i)
    } else {
        proof_place(msg, i - 1)
    }
}

/// The bytes of the text `Server Key`.
pub open spec fn server_key_label() -> Seq<u8> {
    seq![83, 101, 114, 118, 101, 114, 32, 75, 101, 121]
}

/// The signature by which the server proves that it knows the password.
pub open spec fn signature_of(
    variant: ScramVariant,
    password: Seq<char>,
    salt: Seq<u8>,
    iterations: u32,
    auth_message: Seq<char>,
) -> Seq<u8> {
    match variant {
        ScramVariant::Sha512 => hmac_sha512_of(
            hmac_sha512_of(
                pbkdf2_sha512_of(encode_utf8(password), salt, iterations, 64),
                server_key_label(),
            ),
            encode_utf8(auth_message),
        ),
        ScramVariant::Sha256 => hmac_sha256_of(
            hmac_sha256_of(
                pbkdf2_sha256_of(encode_utf8(password), salt, iterations, 32),
                server_key_label(),
            ),
            encode_utf8(auth_message),
        ),
    }
}

/// The bytes of the text `Server Key`.
fn server_key_bytes() -> (r: Vec<u8>)
    ensures
        r@ == server_key_label(),
{
    let r: Vec<u8> = vec![83, 101, 114, 118, 101, 114, 32, 75, 101, 121];
    assert(r@ =~= server_key_label());
    r
}

/// The server's signature with SHA-512.
pub fn compute_server_signature_sha512(
    password: &str,
    salt: &[u8],
    iterations: u32,
    auth_message: &str,
) -> (r: Vec<u8>)
    ensures
        r@ == signature_of(ScramVariant::Sha512, password@, salt@, iterations, auth_message@),
{
    let salted_password = pbkdf2_sha512(password.as_bytes(), salt, iterations, 64);
    let label = server_key_bytes();
    let server_key = hmac_sha512(salted_password.as_slice(), label.as_slice());
    hmac_sha512(server_key.as_slice(), auth_message.as_bytes())
}

/// The server's signature with SHA-256.
pub fn compute_server_signature_sha256(
    password: &str,
    salt: &[u8],
    iterations: u32,
    auth_message: &str,
) -> (r: Vec<u8>)
    ensures
        r@ == signature_of(ScramVariant::Sha256, password@, salt@, iterations, auth_message@),
{
    let salted_password = pbkdf2_sha256(password.as_bytes(), salt, iterations, 32);
    let label = server_key_bytes();
    let server_key = hmac_sha256(salted_password.as_slice(), label.as_slice());
    hmac_sha256(server_key.as_slice(), auth_message.as_bytes())
}

/// The client's first message without its header.
fn bare_text(msg: &str) -> (r: Option<String>)
    ensures
        match r {
            Some(b) => bare_of(msg@) == Some(b@),
            None => bare_of(msg@) is None,
        },
{
    proof {
        reveal_strlit("n,,");
        reveal_strlit("n,");
    }
    if has_prefix(msg, "n,,") {
        return Some(text_after(msg, 3));
    }
    if has_prefix(msg, "n,") {
        let cs = chars_of(msg);
        let n: usize = cs.len();
        return match find_char_from(&cs, ',', 2) {
            Some(p) => Some(text_of(&cs, p + 1, n)),
            None => None,
        };
    }
    None
}

impl ScramState {
    /// Whether this is the state after a client's first message, with a server nonce and a salt.
    pub open spec fn begins(
        self,
        variant: ScramVariant,
        msg: Seq<u8>,
        server_nonce: Seq<char>,
        salt: Seq<u8>,
    ) -> bool {
        let bare = bare_of(decode_utf8(msg))->0;
        &&& self.variant == variant
        &&& self.client_first_bare@ == bare
        &&& self.username@ == field_of(bare, "n="@)
        &&& self.client_nonce@ == field_of(bare, "r="@)
        &&& self.combined_nonce@ == field_of(bare, "r="@) + server_nonce
        &&& self.salt@ == salt
        &&& self.iterations == ITERATIONS
        &&& self.server_first@ == server_first_of(self.combined_nonce@, salt)
    }

    /// Answers a client's first message with a given nonce and salt: the state and the server's
    /// first message.
    pub fn from_client_first_with(
        variant: ScramVariant,
        client_msg: &[u8],
        server_nonce: &str,
        salt: Vec<u8>,
    ) -> (r: Option<(Self, Vec<u8>)>)
        ensures
            match r {
                Some((state, reply)) => is_client_first(client_msg@) && state.begins(
                    variant,
                    client_msg@,
                    server_nonce@,
                    salt@,
                ) && reply@ == encode_utf8(state.server_first@),
                None => !is_client_first(client_msg@),
            },
    {
        proof {
            reveal_strlit("n=");
            reveal_strlit("r=");
        }
        let whole = slice_of(client_msg, 0, client_msg.len());
        assert(whole@ =~= client_msg@);
        let msg = match text_from_utf8(whole) {
            Some(m) => m,
            None => {
                return None;
            },
        };
        let bare = match bare_text(msg.as_str()) {
            Some(b) => b,
            None => {
                return None;
            },
        };
        let fields = split_on(bare.as_str(), ',');
        assert(crate::text::texts(fields@).len() == fields@.len());
        let username = last_field_of(&fields, "n=", 2);
        let client_nonce = last_field_of(&fields, "r=", 2);
        if username.as_str().is_empty() || client_nonce.as_str().is_empty() {
            return None;
        }
        let mut combined_nonce = client_nonce.clone();
        combined_nonce.append(server_nonce);
        let salt_b64 = base64_encode(salt.as_slice());
        let mut server_first = "r=".to_owned();
        server_first.append(combined_nonce.as_str());
        server_first.append(",s=");
        server_first.append(salt_b64.as_str());
        server_first.append(",i=");
        push_dec(&mut server_first, ITERATIONS as u64);
        let reply = server_first.as_str().as_bytes_vec();
        let state = ScramState {
            variant,
            client_first_bare: bare,
            combined_nonce,
            salt,
            iterations: ITERATIONS,
            server_first,
            username,
            client_nonce,
        };
        Some((state, reply))
    }

    /// Answers a client's first message with a random nonce and salt.
    pub fn from_client_first(variant: ScramVariant, client_msg: &[u8]) -> (r: Option<
        (Self, Vec<u8>),
    >)
        ensures
            match r {
                Some((state, reply)) => is_client_first(client_msg@) && reply@ == encode_utf8(
                    state.server_first@,
                ) && state.salt@.len() == 16 && exists|server_nonce: Seq<char>|
                    state.begins(variant, client_msg@, server_nonce, state.salt@)
                        && !server_nonce.contains(','),
                None => !is_client_first(client_msg@),
            },
    {
        let nonce_bytes = random_bytes(24);
        let server_nonce = base64_encode(nonce_bytes.as_slice());
        let salt = random_bytes(16);
        Self::from_client_first_with(variant, client_msg, server_nonce.as_str(), salt)
    }

    /// Whether a client's final message is accepted: it has a proof and bears the agreed nonce.
    pub open spec fn accepts(self, msg: Seq<u8>) -> bool {
        &&& valid_utf8(msg)
        &&& proof_place(decode_utf8(msg), decode_utf8(msg).len() as int) is Some
        &&& field_of(decode_utf8(msg), "r="@) == self.combined_nonce@
    }

    /// The text that the signature signs, for a client's final message.
    pub open spec fn auth_message(self, msg: Seq<char>) -> Seq<char> {
        self.client_first_bare@ + ","@ + self.server_first@ + ","@ + msg.subrange(
            0,
            proof_place(msg, msg.len() as int)->0,
        )
    }

    /// Answers a client's final message: the server's signature, or nothing where the message is
    /// malformed or bears another nonce.
    pub fn process_client_final(&self, client_msg: &[u8], password: &str) -> (r: Option<Vec<u8>>)
        ensures
            match r {
                Some(reply) => self.accepts(client_msg@) && reply@ == encode_utf8(
                    "v="@ + base64_of(
                        signature_of(
                            self.variant,
                            password@,
                            self.salt@,
                            self.iterations,
                            self.auth_message(decode_utf8(client_msg@)),
                        ),
                    ),
                ),
                None => !self.accepts(client_msg@),
            },
    {
        proof {
            reveal_strlit("r=");
        }
        let whole = slice_of(client_msg, 0, client_msg.len());
        assert(whole@ =~= client_msg@);
        let msg = match text_from_utf8(whole) {
            Some(m) => m,
            None => {
                return None;
            },
        };
        let cs = chars_of(msg.as_str());
        let place: usize = match find_proof(&cs) {
            Some(p) => p,
            None => {
                return None;
            },
        };
        let without_proof = text_of(&cs, 0, place);
        let fields = split_on(msg.as_str(), ',');
        assert(crate::text::texts(fields@).len() == fields@.len());
        let nonce = last_field_of(&fields, "r=", 2);
        if !same_text(nonce.as_str(), self.combined_nonce.as_str()) {
            return None;
        }
        let mut auth_message = self.client_first_bare.clone();
        auth_message.append(",");
        auth_message.append(self.server_first.as_str());
        auth_message.append(",");
        auth_message.append(without_proof.as_str());
        let signature = match self.variant {
            ScramVariant::Sha512 => compute_server_signature_sha512(
                password,
                self.salt.as_slice(),
                self.iterations,
                auth_message.as_str(),
            ),
            ScramVariant::Sha256 => compute_server_signature_sha256(
                password,
                self.salt.as_slice(),
                self.iterations,
                auth_message.as_str(),
            ),
        };
        let mut server_final = "v=".to_owned();
        server_final.append(base64_encode(signature.as_slice()).as_str());
        Some(server_final.as_str().as_bytes_vec())
    }
}

/// The last place at which `,p=` stands.
fn find_proof(cs: &Vec<char>) -> (r: Option<usize>)
    ensures
        match r {
            Some(p) => proof_place(cs@, cs@.len() as int) == Some(p as int) && p < cs@.len(),
            None => proof_place(cs@, cs@.len() as int) is None,
        },
{
    let mut n: usize = cs.len();
    while n > 0
        invariant
            n <= cs@.len(),
            proof_place(cs@, cs@.len() as int) == proof_place(cs@, n as int),
        decreases n,
    {
        if cs.len() - n >= 3 && cs[n] == ',' && cs[n + 1] == 'p' && cs[n + 2] == '=' {
            return Some(n);
        }
        n = n - 1;
    }
    if cs.len() >= 3 && cs[0] == ',' && cs[1] == 'p' && cs[2] == '=' {
        return Some(0);
    }
    assert(proof_place(cs@, -1) is None);
    None
}

// ---- Laws ----

/// A client's final message with another nonce than the agreed one is refused.
pub proof fn law_other_nonce_is_refused(state: ScramState, msg: Seq<u8>)
    requires
        field_of(decode_utf8(msg), "r="@) != state.combined_nonce@,
    ensures
        !state.accepts(msg),
{
}

proof fn lemma_proof_place_found(msg: Seq<char>, p: int, i: int)
    requires
        0 <= p <= i,
        p + 3 <= msg.len(),
        msg[p] == ',',
        msg[p + 1] == 'p',
        msg[p + 2] == '=',
    ensures
        proof_place(msg, i) is Some,
    decreases i,
{
    if i > p {
        lemma_proof_place_found(msg, p, i - 1);
    }
}

/// The client's final message of a proper handshake: channel binding, the agreed nonce, proof.
pub open spec fn client_final(binding: Seq<char>, nonce: Seq<char>, proof_text: Seq<char>) -> Seq<
    char,
> {
    "c="@ + binding + seq![','] + ("r="@ + nonce) + seq![','] + ("p="@ + proof_text)
}

/// A client's final message with the agreed nonce is accepted; nonce and proof hold no comma.
pub proof fn law_agreed_nonce_is_accepted(
    state: ScramState,
    binding: Seq<char>,
    proof_text: Seq<char>,
)
    requires
        !state.combined_nonce@.contains(','),
        !proof_text.contains(','),
    ensures
        state.accepts(encode_utf8(client_final(binding, state.combined_nonce@, proof_text))),
{
    let nonce = state.combined_nonce@;
    let msg = client_final(binding, nonce, proof_text);
    vstd::utf8::encode_utf8_valid_utf8(msg);
    vstd::utf8::encode_utf8_decode_utf8(msg);
    reveal_strlit("r=");
    reveal_strlit("p=");
    reveal_strlit("c=");
    let a = "c="@ + binding;
    let b = "r="@ + nonce;
    let d = "p="@ + proof_text;
    lemma_no_comma('r', nonce, b);
    lemma_no_comma('p', proof_text, d);
    lemma_split_append(a, b, ',');
    lemma_split_append(a + seq![','] + b, d, ',');
    let fields = split(msg, ',');
    assert(msg =~= a + seq![','] + b + seq![','] + d);
    assert(fields == split(a, ',').push(b).push(d));
    let n = fields.len() as int;
    assert(!starts_with(d, "r="@)) by {
        if starts_with(d, "r="@) {
            assert(d.subrange(0, 2)[0] == 'r');
        }
    }
    assert(starts_with(b, "r="@)) by {
        assert(b.subrange(0, 2) =~= "r="@);
    }
    assert(b.subrange(2, b.len() as int) =~= nonce);
    assert(last_field(fields, "r="@, n) == last_field(fields, "r="@, n - 1));
    let p = (a + seq![','] + b).len() as int;
    assert(msg[p] == ',');
    assert(msg[p + 1] == d[0]);
    assert(msg[p + 2] == d[1]);
    lemma_proof_place_found(msg, p, msg.len() as int);
}

proof fn lemma_field_holds_no_comma(fields: Seq<Seq<char>>, prefix: Seq<char>, k: int)
    requires
        0 <= k <= fields.len(),
        forall|i: int| 0 <= i < fields.len() ==> !(#[trigger] fields[i]).contains(','),
    ensures
        !last_field(fields, prefix, k).contains(','),
    decreases k,
{
    if k > 0 {
        lemma_field_holds_no_comma(fields, prefix, k - 1);
        if starts_with(fields[k - 1], prefix) {
            let value = last_field(fields, prefix, k);
            if value.contains(',') {
                let i = choose|i: int| 0 <= i < value.len() && value[i] == ',';
                assert(fields[k - 1][prefix.len() + i] == ',');
            }
        }
    }
}

proof fn lemma_proof_place_is(msg: Seq<char>, p: int, i: int)
    requires
        0 <= p <= i <= msg.len(),
        p + 3 <= msg.len(),
        msg[p] == ',',
        msg[p + 1] == 'p',
        msg[p + 2] == '=',
        forall|j: int| p < j < msg.len() ==> msg[j] != ',',
    ensures
        proof_place(msg, i) == Some(p),
    decreases i,
{
    if i > p {
        lemma_proof_place_is(msg, p, i - 1);
    }
}

/// A handshake completes: whoever answers the server's first message with the agreed nonce and a
/// proof is accepted, and the signature that comes back signs the client's first message, the
/// server's, and the client's final one without its proof.
pub proof fn law_handshake_completes(
    state: ScramState,
    variant: ScramVariant,
    first: Seq<u8>,
    server_nonce: Seq<char>,
    salt: Seq<u8>,
    binding: Seq<char>,
    proof_text: Seq<char>,
)
    requires
        is_client_first(first),
        state.begins(variant, first, server_nonce, salt),
        !server_nonce.contains(','),
        !proof_text.contains(','),
    ensures
        state.accepts(encode_utf8(client_final(binding, state.combined_nonce@, proof_text))),
        state.auth_message(client_final(binding, state.combined_nonce@, proof_text))
            == bare_of(decode_utf8(first))->0 + ","@ + server_first_of(state.combined_nonce@, salt)
            + ","@ + ("c="@ + binding + seq![','] + ("r="@ + state.combined_nonce@)),
{
    let bare = bare_of(decode_utf8(first))->0;
    let fields = split(bare, ',');
    let nonce = state.combined_nonce@;
    lemma_pieces_hold_no_separator(bare, ',');
    lemma_field_holds_no_comma(fields, "r="@, fields.len() as int);
    assert(!nonce.contains(',')) by {
        if nonce.contains(',') {
            let i = choose|i: int| 0 <= i < nonce.len() && nonce[i] == ',';
            let own = field_of(bare, "r="@);
            if i < own.len() {
                assert(own[i] == ',');
            } else {
                assert(server_nonce[i - own.len()] == ',');
            }
        }
    }
    law_agreed_nonce_is_accepted(state, binding, proof_text);
    reveal_strlit("p=");
    let msg = client_final(binding, nonce, proof_text);
    let unproved = "c="@ + binding + seq![','] + ("r="@ + nonce);
    let p = unproved.len() as int;
    assert(msg =~= unproved + seq![','] + ("p="@ + proof_text));
    assert forall|j: int| p < j < msg.len() implies msg[j] != ',' by {
        if j >= p + 3 {
            assert(msg[j] == proof_text[j - p - 3]);
        }
    }
    lemma_proof_place_is(msg, p, msg.len() as int);
    assert(msg.subrange(0, p) =~= unproved);
}

proof fn lemma_no_comma(first: char, rest: Seq<char>, whole: Seq<char>)
    requires
        first != ',',
        !rest.contains(','),
        whole.len() == rest.len() + 2,
        whole[0] == first,
        whole[1] == '=',
        forall|i: int| 0 <= i < rest.len() ==> whole[i + 2] == #[trigger] rest[i],
    ensures
        !whole.contains(','),
{
    if whole.contains(',') {
        let i = choose|i: int| 0 <= i < whole.len() && whole[i] == ',';
        if i >= 2 {
            assert(whole[(i - 2) + 2] == rest[i - 2]);
        }
    }
}

/// The header of a client's first message is left out: `n,,`, or `n,`, a name to act for and a comma.
pub proof fn law_headers_are_left_out(bare: Seq<char>, who: Seq<char>)
    requires
        who.len() > 0,
        !who.contains(','),
    ensures
        bare_of("n,,"@ + bare) == Some(bare),
        bare_of("n,"@ + who + seq![','] + bare) == Some(bare),
{
    reveal_strlit("n,,");
    reveal_strlit("n,");
    let a = "n,,"@ + bare;
    assert(a.subrange(0, 3) =~= "n,,"@);
    assert(a.subrange(3, a.len() as int) =~= bare);
    let b = "n,"@ + who + seq![','] + bare;
    assert(b.subrange(0, 2) =~= "n,"@);
    if starts_with(b, "n,,"@) {
        assert(b.subrange(0, 3)[2] == ',');
        assert(who[0] == b[2]);
        assert(who.contains(who[0]));
    }
    let p = 2 + who.len() as int;
    assert(b[p] == ',');
    assert forall|k: int| 2 <= k < p implies b[k] != ',' by {
        assert(who.contains(who[k - 2]));
        assert(b[k] == who[k - 2]);
    }
    lemma_find_char(b, ',', 2, p);
    assert(b.subrange(p + 1, b.len() as int) =~= bare);
}

proof fn lemma_find_char(s: Seq<char>, c: char, i: int, p: int)
    requires
        0 <= i <= p < s.len(),
        s[p] == c,
        forall|k: int| i <= k < p ==> s[k] != c,
    ensures
        find_char(s, c, i) == Some(p),
    decreases p - i,
{
    if i < p {
        lemma_find_char(s, c, i + 1, p);
    }
}

/// A client's first message names its user and its nonce.
pub proof fn law_first_messages_name_user_and_nonce(user: Seq<char>, nonce: Seq<char>)
    requires
        !user.contains(','),
        !nonce.contains(','),
    ensures
        field_of("n="@ + user + seq![','] + ("r="@ + nonce), "n="@) == user,
        field_of("n="@ + user + seq![','] + ("r="@ + nonce), "r="@) == nonce,
{
    reveal_strlit("n=");
    reveal_strlit("r=");
    let a = "n="@ + user;
    let b = "r="@ + nonce;
    lemma_no_comma('n', user, a);
    lemma_no_comma('r', nonce, b);
    let msg = a + seq![','] + b;
    lemma_split_append(a, b, ',');
    crate::text_split::lemma_split_single(a, ',');
    let fields = split(msg, ',');
    assert(fields =~= seq![a, b]);
    reveal_with_fuel(last_field, 3);
    assert(b.subrange(0, 2) =~= "r="@);
    assert(a.subrange(0, 2) =~= "n="@);
    if starts_with(b, "n="@) {
        assert(b.subrange(0, 2)[0] == 'n');
        assert(b[0] == 'r');
    }
    assert(b.subrange(2, b.len() as int) =~= nonce);
    assert(a.subrange(2, a.len() as int) =~= user);
}

/// The server's nonce is added to the client's, and its first message bears both, the salt and four
/// thousand and ninety-six rounds. The user is the one that the client named.
pub proof fn law_servers_answer_with_both_nonces(
    state: ScramState,
    variant: ScramVariant,
    first: Seq<u8>,
    server_nonce: Seq<char>,
    salt: Seq<u8>,
)
    requires
        is_client_first(first),
        state.begins(variant, first, server_nonce, salt),
    ensures
        ({
            let bare = bare_of(decode_utf8(first))->0;
            &&& state.combined_nonce@ == field_of(bare, "r="@) + server_nonce
            &&& state.username@ == field_of(bare, "n="@)
            &&& state.username@.len() > 0
            &&& state.client_nonce@.len() > 0
            &&& state.server_first@ == "r="@ + state.combined_nonce@ + ",s="@ + base64_of(salt)
                + ",i="@ + dec(4096)
            &&& state.variant == variant
            &&& state.salt@ == salt
            &&& state.iterations == 4096
        }),
{
}

/// A client's final message without a proof is refused.
pub proof fn law_no_proof_is_refused(state: ScramState, msg: Seq<u8>)
    requires
        forall|i: int|
            0 <= i && i + 3 <= decode_utf8(msg).len() ==> !(#[trigger] decode_utf8(msg)[i] == ','
                && decode_utf8(msg)[i + 1] == 'p' && decode_utf8(msg)[i + 2] == '='),
    ensures
        !state.accepts(msg),
{
    lemma_no_proof_place(decode_utf8(msg), decode_utf8(msg).len() as int);
}

proof fn lemma_no_proof_place(msg: Seq<char>, i: int)
    requires
        i <= msg.len(),
        forall|k: int|
            0 <= k && k + 3 <= msg.len() ==> !(#[trigger] msg[k] == ',' && msg[k + 1] == 'p' && msg[k
                + 2] == '='),
    ensures
        proof_place(msg, i) is None,
    decreases i + 1,
{
    if i >= 0 {
        lemma_no_proof_place(msg, i - 1);
    }
}

/// The server's key is made of the salted password and the words `Server Key`.
pub proof fn law_server_keys_have_their_label()
    ensures
        server_key_label().len() == "Server Key"@.len(),
        forall|i: int|
            0 <= i < server_key_label().len() ==> (#[trigger] server_key_label()[i]) as char
                == "Server Key"@[i],
{
    reveal_strlit("Server Key");
    assert("Server Key"@ =~= seq!['S', 'e', 'r', 'v', 'e', 'r', ' ', 'K', 'e', 'y']);
}

/// The server proves itself with the keyed hash of the exchange, under a key that is made of the
/// salted password and the label of server keys, all with the hash that was agreed on.
pub proof fn law_servers_sign_the_exchange(
    password: Seq<char>,
    salt: Seq<u8>,
    iterations: u32,
    message: Seq<char>,
)
    ensures
        signature_of(ScramVariant::Sha256, password, salt, iterations, message) == hmac_sha256_of(
            hmac_sha256_of(
                pbkdf2_sha256_of(encode_utf8(password), salt, iterations, 32),
                encode_utf8("Server Key"@),
            ),
            encode_utf8(message),
        ),
        signature_of(ScramVariant::Sha512, password, salt, iterations, message) == hmac_sha512_of(
            hmac_sha512_of(
                pbkdf2_sha512_of(encode_utf8(password), salt, iterations, 64),
                encode_utf8("Server Key"@),
            ),
            encode_utf8(message),
        ),
{
    reveal_strlit("Server Key");
    let label = "Server Key"@;
    assert(is_ascii_chars(label));
    is_ascii_chars_encode_utf8(label);
    law_server_keys_have_their_label();
    assert forall|i: int| 0 <= i < label.len() implies encode_utf8(label)[i] == #[trigger] server_key_label()[i] by {
        assert(encode_utf8(label)[i] == label[i] as u8);
    }
    assert(encode_utf8(label) =~= server_key_label());
}

} // verus!

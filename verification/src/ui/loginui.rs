use vstd::prelude::*;
use vstd::utf8::{encode_scalar, encode_utf8};

verus! {

/// A key pressed on the login screen.
#[derive(Debug, Clone, Copy, PartialEq, Eq)]
pub enum LoginKey {
    Char(char),
    Backspace,
    Enter,
    Esc,
    Other,
}

/// What the login screen does after a key.
#[derive(Debug)]
pub enum LoginStep {
    /// Keep asking.
    Editing,
    /// The name is entered.
    Confirmed(String),
    /// The player left.
    Cancelled,
}

/// The number of bytes of a text in UTF-8.
pub open spec fn byte_len(s: Seq<char>) -> nat {
    encode_utf8(s).len()
}

/// The name after a key: a character is added while the name has at most
/// 20 bytes, Backspace takes the last character off, other keys leave it.
pub open spec fn name_after(name: Seq<char>, key: LoginKey) -> Seq<char> {
    match key {
        LoginKey::Char(c) => if byte_len(name) <= 20 {
            name.push(c)
        } else {
            name
        },
        LoginKey::Backspace => if name.len() > 0 {
            name.drop_last()
        } else {
            name
        },
        _ => name,
    }
}

/// The UTF-8 bytes of two texts put together are the bytes of the first
/// followed by those of the second.
proof fn lemma_encode_utf8_concat(a: Seq<char>, b: Seq<char>)
    ensures
        encode_utf8(a + b) == encode_utf8(a) + encode_utf8(b),
    decreases a.len(),
{
    if a.len() == 0 {
        assert(a + b =~= b);
        assert(encode_utf8(a) =~= Seq::<u8>::empty());
        assert(encode_utf8(a) + encode_utf8(b) =~= encode_utf8(b));
    } else {
        lemma_encode_utf8_concat(a.drop_first(), b);
        assert((a + b).drop_first() =~= a.drop_first() + b);
        assert((a + b)[0] == a[0]);
        assert(encode_utf8(a + b) =~= encode_scalar(a[0] as u32) + encode_utf8(a.drop_first() + b));
    }
}

/// One more character adds one to four bytes.
proof fn lemma_byte_len_push(s: Seq<char>, c: char)
    ensures
        byte_len(s) + 1 <= byte_len(s.push(c)) <= byte_len(s) + 4,
{
    lemma_encode_utf8_concat(s, seq![c]);
    assert(s.push(c) =~= s + seq![c]);
    assert(seq![c].drop_first() =~= Seq::<char>::empty());
    assert(encode_utf8(seq![c]) =~= encode_scalar(c as u32) + encode_utf8(Seq::<char>::empty()));
    let e = encode_scalar(c as u32);
    assert(1 <= e.len() <= 4);
}

/// While the name is being typed it never grows past 24 bytes: a key can
/// only add a character to a name of at most 20 bytes, and a character
/// takes at most 4.
pub proof fn lemma_name_stays_short(name: Seq<char>, key: LoginKey)
    requires
        byte_len(name) <= 24,
    ensures
        byte_len(name_after(name, key)) <= 24,
{
    match key {
        LoginKey::Char(c) => {
            lemma_byte_len_push(name, c);
        },
        LoginKey::Backspace => {
            if name.len() > 0 {
                lemma_byte_len_push(name.drop_last(), name.last());
                assert(name.drop_last().push(name.last()) =~= name);
            }
        },
        _ => {},
    }
}

/// A typed character is added exactly while the name has at most 20
/// bytes; Backspace takes off the last character; Enter, Esc and other
/// keys leave the name.
pub proof fn lemma_key_effects(name: Seq<char>, c: char)
    ensures
        byte_len(name) <= 20 ==> name_after(name, LoginKey::Char(c)) == name.push(c),
        byte_len(name) > 20 ==> name_after(name, LoginKey::Char(c)) == name,
        name.len() > 0 ==> name_after(name, LoginKey::Backspace) == name.subrange(
            0,
            name.len() - 1,
        ),
        name.len() == 0 ==> name_after(name, LoginKey::Backspace) == name,
        name_after(name, LoginKey::Enter) == name,
        name_after(name, LoginKey::Esc) == name,
        name_after(name, LoginKey::Other) == name,
{
}

/// Backspace takes back a character that was just typed.
pub proof fn lemma_backspace_undoes_char(name: Seq<char>, c: char)
    requires
        byte_len(name) <= 20,
    ensures
        name_after(name_after(name, LoginKey::Char(c)), LoginKey::Backspace) == name,
{
    assert(name.push(c).drop_last() =~= name);
}

/// Appends a character to a string (`String::push`).
#[verifier::external_body]
fn push_char(s: &mut String, c: char)
    ensures
        final(s)@ == old(s)@.push(c),
{
    s.push(c)
}

/// Takes the last character off a string (`String::pop`).
#[verifier::external_body]
fn pop_char(s: &mut String) -> (r: Option<char>)
    ensures
        old(s)@.len() == 0 ==> r is None && final(s)@ == old(s)@,
        old(s)@.len() > 0 ==> r == Some(old(s)@.last()) && final(s)@ == old(s)@.drop_last(),
{
    s.pop()
}

/// The fields of the login screen: the name being typed and the server
/// address.
pub struct LoginForm {
    pub name: String,
    pub dest_ip: String,
}

impl LoginForm {
    /// An empty form.
    pub fn new() -> (r: Self)
        ensures
            r.name@ == Seq::<char>::empty(),
            r.dest_ip@ == Seq::<char>::empty(),
    {
        LoginForm { name: String::new(), dest_ip: String::new() }
    }

    /// Takes one key: edits the name, confirms it on Enter or gives up on
    /// Esc.
    pub fn handle_key(&mut self, key: LoginKey) -> (step: LoginStep)
        requires
            byte_len(old(self).name@) <= usize::MAX,
        ensures
            final(self).name@ == name_after(old(self).name@, key),
            final(self).dest_ip == old(self).dest_ip,
            match key {
                LoginKey::Enter => step matches LoginStep::Confirmed(name) && name@ == old(
                    self,
                ).name@,
                LoginKey::Esc => step is Cancelled,
                _ => step is Editing,
            },
    {
        match key {
            LoginKey::Char(c) => {
                if self.name.as_str().len() <= 20 {
                    push_char(&mut self.name, c);
                }
                LoginStep::Editing
            },
            LoginKey::Backspace => {
                pop_char(&mut self.name);
                LoginStep::Editing
            },
            LoginKey::Enter => LoginStep::Confirmed(self.name.clone()),
            LoginKey::Esc => LoginStep::Cancelled,
            LoginKey::Other => LoginStep::Editing,
        }
    }
}

} // verus!

use vstd::prelude::*;

verus! {

/// A message text that is either a string literal or an owned string.
#[derive(Debug, PartialEq, Eq)]
pub enum Acow {
    Borrowed(&'static str),
    Owned(String),
}

impl View for Acow {
    type V = Seq<char>;

    open spec fn view(&self) -> Seq<char> {
        match self {
            Acow::Borrowed(s) => s@,
            Acow::Owned(s) => s@,
        }
    }
}

impl Acow {
    /// An owned copy of `value`.
    pub fn from_str_in(value: &str) -> (r: Self)
        ensures
            r@ == value@,
            r is Owned,
    {
        Acow::Owned(value.to_owned())
    }

    pub fn as_str(&self) -> (r: &str)
        ensures
            r@ == self@,
    {
        match self {
            Acow::Borrowed(value) => value,
            Acow::Owned(value) => value.as_str(),
        }
    }
}

impl AsRef<str> for Acow {
    fn as_ref(&self) -> (r: &str)
        ensures
            r@ == self@,
    {
        self.as_str()
    }
}

impl core::ops::Deref for Acow {
    type Target = str;

    fn deref(&self) -> (r: &str)
        ensures
            r@ == self@,
    {
        self.as_str()
    }
}

impl Default for Acow {
    fn default() -> (r: Self)
        ensures
            r == Acow::Borrowed(""),
            r@ == Seq::<char>::empty(),
    {
        proof {
            reveal_strlit("");
        }
        Acow::Borrowed("")
    }
}

/// Values that can become a message text.
pub trait IntoAcow: Sized {
    /// The characters of the text this value becomes.
    spec fn text(&self) -> Seq<char>;

    fn into_acow(self) -> (r: Acow)
        ensures
            r@ == self.text(),
    ;
}

impl IntoAcow for &'static str {
    open spec fn text(&self) -> Seq<char> {
        (**self)@
    }

    fn into_acow(self) -> (r: Acow) {
        Acow::Borrowed(self)
    }
}

impl IntoAcow for String {
    open spec fn text(&self) -> Seq<char> {
        self@
    }

    fn into_acow(self) -> (r: Acow) {
        Acow::Owned(self)
    }
}

impl IntoAcow for Acow {
    open spec fn text(&self) -> Seq<char> {
        self@
    }

    fn into_acow(self) -> (r: Acow) {
        self
    }
}

} // verus!

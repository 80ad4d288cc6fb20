//! Values that are written as one header field.
use vstd::prelude::*;
use vstd::string::StringExecFns;

verus! {

/// A value that stands as one `key: value` header field.
pub trait HttpHeader {
    /// The field's name.
    spec fn key_text(&self) -> Seq<char>;

    /// The field's value.
    spec fn val_text(&self) -> Seq<char>;

    fn key(&self) -> (r: &str)
        ensures
            r@ == self.key_text(),
    ;

    fn val(&self) -> (r: String)
        ensures
            r@ == self.val_text(),
    ;

    /// The field as it stands in a message head, line end included.
    fn in_raw_http_form(&self) -> (r: String)
        ensures
            r@ == self.key_text() + ": "@ + self.val_text() + "\r\n"@,
    {
        let mut r = String::from_str(self.key());
        r.append(": ");
        let v = self.val();
        r.append(v.as_str());
        r.append("\r\n");
        r
    }
}

} // verus!

//! What the code generator decides for a field that holds a message: how the
//! attributes of the field are read, which calls are generated for it, and whether
//! it gets a read accessor.
//!
//! The attributes arrive already told apart, one value of `Attr` for each; the
//! decisions come back as plain values for the generator to write out.

use vstd::prelude::*;
use vstd::string::StringExecFns;

verus! {

/// How often a field occurs.
#[derive(Debug, Clone, Copy, PartialEq, Eq, Structural)]
pub enum Label {
    Optional,
    Required,
    Repeated,
}

/// One attribute of a field, as a message field reads it.
#[derive(Debug, Clone, PartialEq, Eq)]
pub enum Attr {
    /// `lazypb`, naming the type of the message that is decoded lazily.
    Lazypb(String),
    /// `lazypb` in a form that names no type.
    LazypbInvalid,
    /// `message`.
    Message,
    /// `boxed`.
    Boxed,
    /// `tag`, with the number of the field.
    Tag(u32),
    /// `tag` in a form that gives no number.
    TagInvalid,
    /// `optional`, `required` or `repeated`.
    Label(Label),
    /// Anything else.
    Unknown,
}

/// What an attribute sets. A field may set each of these once.
#[derive(Debug, Clone, Copy, PartialEq, Eq, Structural)]
pub enum Kind {
    Lazypb,
    Message,
    Boxed,
    Tag,
    Label,
}

/// Why the attributes of a field make no message field. `at` is the place of the
/// attribute that is at fault.
#[derive(Debug, Clone, Copy, PartialEq, Eq, Structural)]
pub enum FieldError {
    InvalidLazypb { at: usize },
    DuplicateLazypb { at: usize },
    DuplicateMessage { at: usize },
    DuplicateBoxed { at: usize },
    InvalidTag { at: usize },
    DuplicateTag { at: usize },
    DuplicateLabel { at: usize },
    /// The one attribute that a message field has no use for.
    UnknownAttribute { at: usize },
    /// The first of several attributes that a message field has no use for.
    UnknownAttributes { at: usize },
    /// No tag was given and none can be inferred.
    MissingTag,
    /// A field of a oneof has a label.
    LabelInOneof { at: usize },
}

impl Attr {
    /// What the attribute sets, if it sets anything.
    pub open spec fn kind(self) -> Option<Kind> {
        match self {
            Attr::Lazypb(_) => Some(Kind::Lazypb),
            Attr::Message => Some(Kind::Message),
            Attr::Boxed => Some(Kind::Boxed),
            Attr::Tag(_) => Some(Kind::Tag),
            Attr::Label(_) => Some(Kind::Label),
            _ => None,
        }
    }
}

/// Whether one of the attributes sets `kind`.
pub open spec fn sets(attrs: Seq<Attr>, kind: Kind) -> bool {
    exists|j: int| 0 <= j < attrs.len() && (#[trigger] attrs[j]).kind() == Some(kind)
}

/// Whether the attribute at `i` sets what an earlier one has set.
pub open spec fn repeats(attrs: Seq<Attr>, i: int) -> bool {
    attrs[i].kind() is Some && exists|j: int|
        0 <= j < i && (#[trigger] attrs[j]).kind() == attrs[i].kind()
}

/// Whether the attribute at `i` is at fault: it is ill-formed or repeats an earlier
/// one.
pub open spec fn faulty(attrs: Seq<Attr>, i: int) -> bool {
    attrs[i] is LazypbInvalid || attrs[i] is TagInvalid || repeats(attrs, i)
}

/// The error for the attribute at `i`, which is at fault.
pub open spec fn fault(attrs: Seq<Attr>, i: int) -> FieldError {
    match attrs[i] {
        Attr::LazypbInvalid => FieldError::InvalidLazypb { at: i as usize },
        Attr::Lazypb(_) => FieldError::DuplicateLazypb { at: i as usize },
        Attr::Message => FieldError::DuplicateMessage { at: i as usize },
        Attr::Boxed => FieldError::DuplicateBoxed { at: i as usize },
        Attr::TagInvalid => FieldError::InvalidTag { at: i as usize },
        Attr::Tag(_) => FieldError::DuplicateTag { at: i as usize },
        _ => FieldError::DuplicateLabel { at: i as usize },
    }
}

/// Whether none of the first `n` attributes is at fault.
pub open spec fn sound(attrs: Seq<Attr>, n: int) -> bool {
    forall|j: int| 0 <= j < n ==> !faulty(attrs, j)
}

/// Whether the attribute at `i` is the first that is unknown.
pub open spec fn first_unknown(attrs: Seq<Attr>, i: int) -> bool {
    0 <= i < attrs.len() && attrs[i] is Unknown && forall|j: int|
        0 <= j < i ==> !((#[trigger] attrs[j]) is Unknown)
}

/// Whether an attribute other than the one at `i` is unknown.
pub open spec fn other_unknown(attrs: Seq<Attr>, i: int) -> bool {
    exists|j: int| 0 <= j < attrs.len() && j != i && (#[trigger] attrs[j]) is Unknown
}

/// A field that holds a message.
#[derive(Debug, Clone, PartialEq, Eq)]
pub struct Field {
    pub label: Label,
    pub tag: u32,
    /// The type of the message, where the field is decoded lazily.
    pub lazypb: Option<String>,
}

/// Whether `e` is the error that the attributes call for. The first attribute at
/// fault decides. Without one, a `message` field with unknown attributes is an
/// error, and so is one without a tag.
pub open spec fn rejected(attrs: Seq<Attr>, inferred_tag: Option<u32>, e: FieldError) -> bool {
    ||| exists|i: int|
        0 <= i < attrs.len() && sound(attrs, i) && #[trigger] faulty(attrs, i) && e == fault(
            attrs,
            i,
        )
    ||| sound(attrs, attrs.len() as int) && sets(attrs, Kind::Message) && exists|i: int|
        #[trigger] first_unknown(attrs, i) && e == (if other_unknown(attrs, i) {
            FieldError::UnknownAttributes { at: i as usize }
        } else {
            FieldError::UnknownAttribute { at: i as usize }
        })
    ||| sound(attrs, attrs.len() as int) && sets(attrs, Kind::Message) && (forall|j: int|
        0 <= j < attrs.len() ==> !((#[trigger] attrs[j]) is Unknown)) && !sets(attrs, Kind::Tag)
        && inferred_tag is None && e == FieldError::MissingTag
}

/// Whether `field` is the field that the attributes describe: a `message` field
/// whose attributes are all in order, with the tag, the label and the lazy type
/// that they give. Without a tag of its own the field has the inferred one;
/// without a label it is optional.
pub open spec fn accepted(attrs: Seq<Attr>, inferred_tag: Option<u32>, field: Field) -> bool {
    &&& sound(attrs, attrs.len() as int)
    &&& sets(attrs, Kind::Message)
    &&& forall|j: int| 0 <= j < attrs.len() ==> !((#[trigger] attrs[j]) is Unknown)
    &&& if sets(attrs, Kind::Tag) {
        exists|j: int| 0 <= j < attrs.len() && #[trigger] attrs[j] == Attr::Tag(field.tag)
    } else {
        inferred_tag == Some(field.tag)
    }
    &&& if sets(attrs, Kind::Label) {
        exists|j: int| 0 <= j < attrs.len() && #[trigger] attrs[j] == Attr::Label(field.label)
    } else {
        field.label == Label::Optional
    }
    &&& match field.lazypb {
        Some(name) => exists|j: int| 0 <= j < attrs.len() && #[trigger] attrs[j] == Attr::Lazypb(name),
        None => !sets(attrs, Kind::Lazypb),
    }
}

/// Which call is generated to write the field. A lazy field is written through the
/// hooks of the lazy field, any other through those of the message.
#[derive(Debug, Clone, Copy, PartialEq, Eq, Structural)]
pub enum EncodeCall {
    /// Write the message if there is one.
    IfSome,
    /// Write the message.
    Always,
    /// Write each message.
    Each,
    /// Write the lazy field if there is one.
    LazyIfSome,
    /// Write the lazy field.
    LazyAlways,
    /// Write each lazy field.
    LazyEach,
}

/// Which call is generated to merge an occurrence of the field. A lazy field is
/// merged through the merge hook of the lazy field, whatever its label.
#[derive(Debug, Clone, Copy, PartialEq, Eq, Structural)]
pub enum MergeCall {
    /// Merge into the lazy field, which is made first if there is none.
    Lazy,
    /// Merge into the lazy field.
    LazyRequired,
    /// Merge into a new, empty lazy field at the end of the list.
    LazyRepeated,
    /// Merge into the message, which is made first if there is none.
    Optional,
    /// Merge into the message.
    Required,
    /// Merge into a new message at the end of the list.
    Repeated,
}

/// Which call is generated to measure the field.
#[derive(Debug, Clone, Copy, PartialEq, Eq, Structural)]
pub enum LenCall {
    /// The length of the message if there is one, else nothing.
    IfSome,
    /// The length of the message.
    Always,
    /// The lengths of all the messages.
    Each,
    /// The length of the lazy field if there is one, else nothing.
    LazyIfSome,
    /// The length of the lazy field.
    LazyAlways,
    /// The lengths of all the lazy fields.
    LazyEach,
}

/// Which statement is generated to clear the field.
#[derive(Debug, Clone, Copy, PartialEq, Eq, Structural)]
pub enum ClearCall {
    /// The field is set to `None`.
    Unset,
    /// The message or the list is cleared.
    Clear,
}

/// The read accessor that is generated for a lazy field.
#[derive(Debug, Clone, PartialEq, Eq)]
pub struct Accessor {
    /// The name of the method.
    pub name: String,
    /// Its documentation.
    pub doc: String,
}

/// `str::strip_prefix` with a `&str` as the prefix: what follows `prefix` in `s`,
/// where `s` begins with it.
#[verifier::external_body]
fn strip_prefix<'a>(s: &'a str, prefix: &str) -> (rest: Option<&'a str>)
    ensures
        rest is Some <==> prefix@.is_prefix_of(s@),
        rest matches Some(tail) ==> tail@ == s@.skip(prefix@.len() as int),
{
    s.strip_prefix(prefix)
}

/// The name of the accessor of a field.
fn accessor_name(field: &str) -> (name: String)
    ensures
        name@ == "get_"@ + field@,
{
    String::from_str("get_").concat(field)
}

/// The documentation of the accessor of a field.
fn accessor_doc(field: &str) -> (doc: String)
    ensures
        doc@ == "Returns the value of lazy `"@ + field@
            + "`. The pending bytes will be decoded when needed."@,
{
    String::from_str("Returns the value of lazy `").concat(field).concat(
        "`. The pending bytes will be decoded when needed.",
    )
}

/// The name of a field without the mark of a raw identifier.
pub open spec fn plain_name(ident: Seq<char>) -> Seq<char> {
    if "r#"@.is_prefix_of(ident) {
        ident.skip(2)
    } else {
        ident
    }
}

impl Field {
    /// Reads the attributes of a field. Returns the message field that they
    /// describe, `None` where they describe no message field, or the error of the
    /// first attribute at fault.
    pub fn new(attrs: &[Attr], inferred_tag: Option<u32>) -> (r: Result<Option<Field>, FieldError>)
        ensures
            match r {
                Err(e) => rejected(attrs@, inferred_tag, e),
                Ok(None) => sound(attrs@, attrs@.len() as int) && !sets(attrs@, Kind::Message),
                Ok(Some(field)) => accepted(attrs@, inferred_tag, field),
            },
    {
        let mut message = false;
        let mut boxed = false;
        let mut label: Option<Label> = None;
        let mut tag: Option<u32> = None;
        let mut lazypb: Option<String> = None;
        let mut unknown: usize = 0;
        let mut first: usize = 0;

        let mut i: usize = 0;
        while i < attrs.len()
            invariant
                i <= attrs@.len(),
                sound(attrs@, i as int),
                forall|j: int|
                    0 <= j < i ==> (#[trigger] attrs@[j]).kind() == Some(Kind::Message) ==> message,
                message ==> exists|j: int|
                    0 <= j < i && (#[trigger] attrs@[j]).kind() == Some(Kind::Message),
                forall|j: int|
                    0 <= j < i ==> (#[trigger] attrs@[j]).kind() == Some(Kind::Boxed) ==> boxed,
                boxed ==> exists|j: int|
                    0 <= j < i && (#[trigger] attrs@[j]).kind() == Some(Kind::Boxed),
                forall|j: int|
                    0 <= j < i ==> (#[trigger] attrs@[j]).kind() == Some(Kind::Tag) ==> tag is Some,
                tag matches Some(t) ==> exists|j: int|
                    0 <= j < i && #[trigger] attrs@[j] == Attr::Tag(t),
                forall|j: int|
                    0 <= j < i ==> (#[trigger] attrs@[j]).kind() == Some(Kind::Label) ==> label
                        is Some,
                label matches Some(l) ==> exists|j: int|
                    0 <= j < i && #[trigger] attrs@[j] == Attr::Label(l),
                forall|j: int|
                    0 <= j < i ==> (#[trigger] attrs@[j]).kind() == Some(Kind::Lazypb) ==> lazypb
                        is Some,
                lazypb matches Some(name) ==> exists|j: int|
                    0 <= j < i && #[trigger] attrs@[j] == Attr::Lazypb(name),
                unknown <= i,
                unknown == 0 ==> forall|j: int| 0 <= j < i ==> !((#[trigger] attrs@[j]) is Unknown),
                unknown >= 1 ==> first < i && first_unknown(attrs@, first as int),
                unknown == 1 ==> forall|j: int|
                    0 <= j < i && j != first ==> !((#[trigger] attrs@[j]) is Unknown),
                unknown >= 2 ==> other_unknown(attrs@, first as int),
            decreases attrs@.len() - i,
        {
            let ghost at = i as int;
            match &attrs[i] {
                Attr::Lazypb(name) => {
                    if lazypb.is_some() {
                        assert(faulty(attrs@, at));
                        return Err(FieldError::DuplicateLazypb { at: i });
                    }
                    lazypb = Some(name.clone());
                },
                Attr::LazypbInvalid => {
                    assert(faulty(attrs@, at));
                    return Err(FieldError::InvalidLazypb { at: i });
                },
                Attr::Message => {
                    if message {
                        assert(faulty(attrs@, at));
                        return Err(FieldError::DuplicateMessage { at: i });
                    }
                    message = true;
                },
                Attr::Boxed => {
                    if boxed {
                        assert(faulty(attrs@, at));
                        return Err(FieldError::DuplicateBoxed { at: i });
                    }
                    boxed = true;
                },
                Attr::Tag(t) => {
                    if tag.is_some() {
                        assert(faulty(attrs@, at));
                        return Err(FieldError::DuplicateTag { at: i });
                    }
                    tag = Some(*t);
                },
                Attr::TagInvalid => {
                    assert(faulty(attrs@, at));
                    return Err(FieldError::InvalidTag { at: i });
                },
                Attr::Label(l) => {
                    if label.is_some() {
                        assert(faulty(attrs@, at));
                        return Err(FieldError::DuplicateLabel { at: i });
                    }
                    label = Some(*l);
                },
                Attr::Unknown => {
                    if unknown == 0 {
                        first = i;
                    }
                    unknown = unknown + 1;
                },
            }
            assert(!faulty(attrs@, at));
            i = i + 1;
        }

        if !message {
            return Ok(None);
        }
        if unknown == 1 {
            return Err(FieldError::UnknownAttribute { at: first });
        }
        if unknown > 1 {
            return Err(FieldError::UnknownAttributes { at: first });
        }
        let tag = match tag {
            Some(tag) => tag,
            None => match inferred_tag {
                Some(tag) => tag,
                None => {
                    return Err(FieldError::MissingTag);
                },
            },
        };
        let label = match label {
            Some(label) => label,
            None => Label::Optional,
        };
        Ok(Some(Field { label, tag, lazypb }))
    }

    /// Reads the attributes of a field of a oneof: a message field without a label
    /// and without an inferred tag. The field comes out as required.
    pub fn new_oneof(attrs: &[Attr]) -> (r: Result<Option<Field>, FieldError>)
        ensures
            match r {
                Err(e) => rejected(attrs@, None, e) || (exists|field: Field|
                    accepted(attrs@, None, field)) && exists|i: int|
                    0 <= i < attrs@.len() && #[trigger] attrs@[i] is Label && e
                        == (FieldError::LabelInOneof { at: i as usize }),
                Ok(None) => sound(attrs@, attrs@.len() as int) && !sets(attrs@, Kind::Message),
                Ok(Some(field)) => !sets(attrs@, Kind::Label) && field.label == Label::Required
                    && accepted(
                    attrs@,
                    None,
                    (Field { label: Label::Optional, tag: field.tag, lazypb: field.lazypb }),
                ),
            },
    {
        match Field::new(attrs, None) {
            Err(e) => Err(e),
            Ok(None) => Ok(None),
            Ok(Some(field)) => {
                let ghost found = field;
                let mut i: usize = 0;
                while i < attrs.len()
                    invariant
                        i <= attrs@.len(),
                        accepted(attrs@, None, found),
                        forall|j: int| 0 <= j < i ==> !((#[trigger] attrs@[j]) is Label),
                    decreases attrs@.len() - i,
                {
                    match &attrs[i] {
                        Attr::Label(_) => {
                            return Err(FieldError::LabelInOneof { at: i });
                        },
                        _ => {},
                    }
                    i = i + 1;
                }
                assert(!sets(attrs@, Kind::Label));
                Ok(Some(Field { label: Label::Required, tag: field.tag, lazypb: field.lazypb }))
            },
        }
    }

    /// Whether the field is decoded lazily.
    pub open spec fn is_lazy(&self) -> bool {
        self.lazypb is Some
    }

    /// The call that writes the field: by its label, and through the hooks of the
    /// lazy field where the field is lazy.
    pub fn encode(&self) -> (call: EncodeCall)
        ensures
            call == match self.label {
                Label::Optional => if self.is_lazy() {
                    EncodeCall::LazyIfSome
                } else {
                    EncodeCall::IfSome
                },
                Label::Required => if self.is_lazy() {
                    EncodeCall::LazyAlways
                } else {
                    EncodeCall::Always
                },
                Label::Repeated => if self.is_lazy() {
                    EncodeCall::LazyEach
                } else {
                    EncodeCall::Each
                },
            },
    {
        let lazy = self.lazypb.is_some();
        match self.label {
            Label::Optional => if lazy {
                EncodeCall::LazyIfSome
            } else {
                EncodeCall::IfSome
            },
            Label::Required => if lazy {
                EncodeCall::LazyAlways
            } else {
                EncodeCall::Always
            },
            Label::Repeated => if lazy {
                EncodeCall::LazyEach
            } else {
                EncodeCall::Each
            },
        }
    }

    /// The call that merges an occurrence of the field. A lazy field is merged
    /// through the merge hook of the lazy field whatever its label: an optional one
    /// into the field, which is made first if there is none, a required one into the
    /// field, a repeated one into a new, empty field at the end of the list.
    pub fn merge(&self) -> (call: MergeCall)
        ensures
            call == match self.label {
                Label::Optional => if self.is_lazy() {
                    MergeCall::Lazy
                } else {
                    MergeCall::Optional
                },
                Label::Required => if self.is_lazy() {
                    MergeCall::LazyRequired
                } else {
                    MergeCall::Required
                },
                Label::Repeated => if self.is_lazy() {
                    MergeCall::LazyRepeated
                } else {
                    MergeCall::Repeated
                },
            },
    {
        let lazy = self.lazypb.is_some();
        match self.label {
            Label::Optional => if lazy {
                MergeCall::Lazy
            } else {
                MergeCall::Optional
            },
            Label::Required => if lazy {
                MergeCall::LazyRequired
            } else {
                MergeCall::Required
            },
            Label::Repeated => if lazy {
                MergeCall::LazyRepeated
            } else {
                MergeCall::Repeated
            },
        }
    }

    /// The call that measures the field: by its label, and through the hooks of the
    /// lazy field where the field is lazy.
    pub fn encoded_len(&self) -> (call: LenCall)
        ensures
            call == match self.label {
                Label::Optional => if self.is_lazy() {
                    LenCall::LazyIfSome
                } else {
                    LenCall::IfSome
                },
                Label::Required => if self.is_lazy() {
                    LenCall::LazyAlways
                } else {
                    LenCall::Always
                },
                Label::Repeated => if self.is_lazy() {
                    LenCall::LazyEach
                } else {
                    LenCall::Each
                },
            },
    {
        let lazy = self.lazypb.is_some();
        match self.label {
            Label::Optional => if lazy {
                LenCall::LazyIfSome
            } else {
                LenCall::IfSome
            },
            Label::Required => if lazy {
                LenCall::LazyAlways
            } else {
                LenCall::Always
            },
            Label::Repeated => if lazy {
                LenCall::LazyEach
            } else {
                LenCall::Each
            },
        }
    }

    /// The statement that clears the field.
    pub fn clear(&self) -> (call: ClearCall)
        ensures
            call == match self.label {
                Label::Optional => ClearCall::Unset,
                _ => ClearCall::Clear,
            },
    {
        match self.label {
            Label::Optional => ClearCall::Unset,
            Label::Required => ClearCall::Clear,
            Label::Repeated => ClearCall::Clear,
        }
    }

    /// The read accessor of the field named `ident`: an optional lazy field gets
    /// one, called `get_` and the name of the field, no other field does.
    pub fn methods(&self, ident: &str) -> (accessor: Option<Accessor>)
        ensures
            accessor is Some <==> self.lazypb is Some && self.label == Label::Optional,
            accessor matches Some(a) ==> a.name@ == "get_"@ + plain_name(ident@) && a.doc@
                == "Returns the value of lazy `"@ + plain_name(ident@)
                + "`. The pending bytes will be decoded when needed."@,
    {
        if self.lazypb.is_none() {
            return None;
        }
        let plain = match strip_prefix(ident, "r#") {
            Some(rest) => rest,
            None => ident,
        };
        proof {
            reveal_strlit("r#");
        }
        match self.label {
            Label::Optional => Some(
                Accessor { name: accessor_name(plain), doc: accessor_doc(plain) },
            ),
            _ => None,
        }
    }
}

} // verus!

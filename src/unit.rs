use vstd::prelude::*;

verus! {

/// Urgency level a sender attaches to a notification: low.
pub const URGENCY_LOW: u8 = 0;

/// Urgency level a sender attaches to a notification: normal.
pub const URGENCY_NORMAL: u8 = 1;

/// Urgency level a sender attaches to a notification: critical.
pub const URGENCY_CRITICAL: u8 = 2;

/// Timeout value meaning "let the server pick".
pub const TIMEOUT_DEFAULT: i32 = -1;

/// Timeout value meaning "never expire".
pub const TIMEOUT_NEVER: i32 = 0;

/// An image attached to a notification: a file path by kind, or raw pixels.
pub enum ImageInfo {
    Svg(String),
    Png(String),
    Jpg(String),
    RgbaRaw { pixels: Vec<u8>, width: i32, height: i32 },
}

/// Mathematical value of an [`ImageInfo`].
pub enum ImageView {
    Svg(Seq<char>),
    Png(Seq<char>),
    Jpg(Seq<char>),
    RgbaRaw { pixels: Seq<u8>, width: i32, height: i32 },
}

impl View for ImageInfo {
    type V = ImageView;

    open spec fn view(&self) -> ImageView {
        match self {
            ImageInfo::Svg(p) => ImageView::Svg(p@),
            ImageInfo::Png(p) => ImageView::Png(p@),
            ImageInfo::Jpg(p) => ImageView::Jpg(p@),
            ImageInfo::RgbaRaw { pixels, width, height } => ImageView::RgbaRaw {
                pixels: pixels@,
                width: *width,
                height: *height,
            },
        }
    }
}

impl Clone for ImageInfo {
    fn clone(&self) -> (r: Self)
        ensures
            r@ == self@,
    {
        match self {
            ImageInfo::Svg(p) => ImageInfo::Svg(p.clone()),
            ImageInfo::Png(p) => ImageInfo::Png(p.clone()),
            ImageInfo::Jpg(p) => ImageInfo::Jpg(p.clone()),
            ImageInfo::RgbaRaw { pixels, width, height } => {
                let px = pixels.clone();
                assert(px@ =~= pixels@);
                ImageInfo::RgbaRaw { pixels: px, width: *width, height: *height }
            },
        }
    }
}

/// The payload a sender submits: immutable once received, replaced as a
/// whole when the sender reuses its id.
pub struct NotifyUnit {
    pub app_name: String,
    /// Sender-chosen id, or 0 to ask the server for a new one.
    pub id: u32,
    pub icon: String,
    pub summery: String,
    pub body: String,
    pub actions: Vec<String>,
    /// Seconds until expiry; `TIMEOUT_DEFAULT` or `TIMEOUT_NEVER` otherwise.
    pub timeout: i32,
    pub urgency: u8,
    /// The sender announced that it accepts inline replies.
    pub inline_reply: bool,
    pub image: Option<ImageInfo>,
}

/// Mathematical value of a [`NotifyUnit`].
pub struct UnitView {
    pub app_name: Seq<char>,
    pub id: u32,
    pub icon: Seq<char>,
    pub summery: Seq<char>,
    pub body: Seq<char>,
    pub actions: Seq<Seq<char>>,
    pub timeout: i32,
    pub urgency: u8,
    pub inline_reply: bool,
    pub image: Option<ImageView>,
}

/// The view of an optional image.
pub open spec fn image_view(i: Option<ImageInfo>) -> Option<ImageView> {
    match i {
        Some(i) => Some(i@),
        None => None,
    }
}

/// The views of a list of strings.
pub open spec fn strings_view(v: Seq<String>) -> Seq<Seq<char>> {
    v.map_values(|s: String| s@)
}

impl View for NotifyUnit {
    type V = UnitView;

    open spec fn view(&self) -> UnitView {
        UnitView {
            app_name: self.app_name@,
            id: self.id,
            icon: self.icon@,
            summery: self.summery@,
            body: self.body@,
            actions: strings_view(self.actions@),
            timeout: self.timeout,
            urgency: self.urgency,
            inline_reply: self.inline_reply,
            image: image_view(self.image),
        }
    }
}

/// Copies a list of strings.
pub fn clone_strings(v: &Vec<String>) -> (r: Vec<String>)
    ensures
        r@ == v@,
{
    let r = v.clone();
    assert(r@ =~= v@);
    r
}

impl Clone for NotifyUnit {
    fn clone(&self) -> (r: Self)
        ensures
            r@ == self@,
    {
        let image = match &self.image {
            Some(i) => Some(i.clone()),
            None => None,
        };
        NotifyUnit {
            app_name: self.app_name.clone(),
            id: self.id,
            icon: self.icon.clone(),
            summery: self.summery.clone(),
            body: self.body.clone(),
            actions: clone_strings(&self.actions),
            timeout: self.timeout,
            urgency: self.urgency,
            inline_reply: self.inline_reply,
            image,
        }
    }
}

impl NotifyUnit {
    /// Whether the sender marked this notification critical.
    pub fn is_critical(&self) -> (r: bool)
        ensures
            r == (self.urgency == URGENCY_CRITICAL),
    {
        self.urgency == URGENCY_CRITICAL
    }

    /// Whether the notification can be answered with an inline reply.
    pub fn inline_reply_support(&self) -> (r: bool)
        ensures
            r == self.inline_reply,
    {
        self.inline_reply
    }

    /// Seconds after which the notification expires on its own: the
    /// explicit timeout when positive; none for `TIMEOUT_DEFAULT`,
    /// `TIMEOUT_NEVER` and other negative values.
    pub fn expiry_secs(&self) -> (r: Option<u64>)
        ensures
            r == (if self.timeout > 0 {
                Some(self.timeout as u64)
            } else {
                None::<u64>
            }),
    {
        if self.timeout > 0 {
            Some(self.timeout as u64)
        } else {
            None
        }
    }

    /// The attached image, if any.
    pub fn image(&self) -> (r: Option<ImageInfo>)
        ensures
            image_view(r) == image_view(self.image),
    {
        match &self.image {
            Some(i) => Some(i.clone()),
            None => None,
        }
    }
}

} // verus!

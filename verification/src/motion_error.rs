//! Failures of motion processing: a message for users and a detail for logs.
use vstd::prelude::*;

use crate::text::string_of;

verus! {

/// The message shown when motion data is malformed.
pub open spec fn invalid_message() -> Seq<char> {
    "❌ モーションデータが正しくありません"@
}

/// The message shown when motion assets cannot be obtained.
pub open spec fn unavailable_message() -> Seq<char> {
    "❌ モーション素材を取得できませんでした"@
}

/// The message shown when rendering fails.
pub open spec fn render_message() -> Seq<char> {
    "❌ モーションの生成に失敗しました"@
}

#[derive(Debug)]
pub struct MotionError {
    public_message: &'static str,
    detail: String,
}

impl MotionError {
    pub closed spec fn spec_public_message(&self) -> Seq<char> {
        self.public_message@
    }

    pub closed spec fn spec_detail(&self) -> Seq<char> {
        self.detail@
    }

    pub fn invalid(detail: String) -> (r: Self)
        ensures
            r.spec_public_message() == invalid_message(),
            r.spec_detail() == detail@,
    {
        MotionError { public_message: "❌ モーションデータが正しくありません", detail }
    }

    pub fn unavailable(detail: String) -> (r: Self)
        ensures
            r.spec_public_message() == unavailable_message(),
            r.spec_detail() == detail@,
    {
        MotionError { public_message: "❌ モーション素材を取得できませんでした", detail }
    }

    pub fn render(detail: String) -> (r: Self)
        ensures
            r.spec_public_message() == render_message(),
            r.spec_detail() == detail@,
    {
        MotionError { public_message: "❌ モーションの生成に失敗しました", detail }
    }

    /// The message for users.
    pub fn public_message(&self) -> (r: &'static str)
        ensures
            r@ == self.spec_public_message(),
    {
        self.public_message
    }

    /// The detail for logs, which the error's display shows.
    pub fn detail(&self) -> (r: String)
        ensures
            r@ == self.spec_detail(),
    {
        self.detail.clone()
    }
}

/// An invalid-data error with the detail given as characters.
pub fn invalid_chars(detail: &[char]) -> (r: MotionError)
    ensures
        r.spec_public_message() == invalid_message(),
        r.spec_detail() == detail@,
{
    MotionError::invalid(string_of(detail))
}

} // verus!

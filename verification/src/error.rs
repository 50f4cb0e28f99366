//! The error type shared by every operation of the library.

use vstd::prelude::*;
use crate::text::{append_str, owned};

verus! {

/// What went wrong, by the part of the system that failed, with a detail
/// message.
#[derive(Clone, Debug, PartialEq)]
pub enum AppError {
    Database(String),
    FileSystem(String),
    LlmService(String),
    TtsService(String),
    FFmpeg(String),
    Audio(String),
    Config(String),
    Serialization(String),
}

/// The text shown for an error: a label for its kind and the detail.
pub open spec fn error_text(e: AppError) -> Seq<char> {
    match e {
        AppError::Database(m) => "数据库错误: "@ + m@,
        AppError::FileSystem(m) => "文件系统错误: "@ + m@,
        AppError::LlmService(m) => "LLM 服务错误: "@ + m@,
        AppError::TtsService(m) => "TTS 服务错误: "@ + m@,
        AppError::FFmpeg(m) => "FFmpeg 错误: "@ + m@,
        AppError::Audio(m) => "音频播放错误: "@ + m@,
        AppError::Config(m) => "配置错误: "@ + m@,
        AppError::Serialization(m) => "IPC 序列化错误: "@ + m@,
    }
}

impl AppError {
    /// The text shown for this error; see [`error_text`].
    pub fn message(&self) -> (r: String)
        ensures
            r@ == error_text(*self),
    {
        let (label, detail) = match self {
            AppError::Database(m) => ("数据库错误: ", m),
            AppError::FileSystem(m) => ("文件系统错误: ", m),
            AppError::LlmService(m) => ("LLM 服务错误: ", m),
            AppError::TtsService(m) => ("TTS 服务错误: ", m),
            AppError::FFmpeg(m) => ("FFmpeg 错误: ", m),
            AppError::Audio(m) => ("音频播放错误: ", m),
            AppError::Config(m) => ("配置错误: ", m),
            AppError::Serialization(m) => ("IPC 序列化错误: ", m),
        };
        let mut r = owned(label);
        append_str(&mut r, detail.as_str());
        r
    }
}

} // verus!

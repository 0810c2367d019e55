//! Errors of a generation run.
use vstd::prelude::*;
use crate::strings::joined;

verus! {

pub enum Error {
    /// Reading or writing a file failed; the text is the system's message.
    IoError(String),
    ParseError { file: String, message: String },
    InvalidArgument(String),
    FrameworkNotDetected,
    SerializationError(String),
}

impl Error {
    /// The message shown to the user.
    pub fn describe(&self) -> (r: String)
        ensures
            r@ == match self {
                Error::IoError(e) => "IO 错误: "@ + e@,
                Error::ParseError { file, message } => "解析错误 "@ + file@ + ": "@ + message@,
                Error::InvalidArgument(m) => "无效参数: "@ + m@,
                Error::FrameworkNotDetected => "未检测到支持的 Web 框架"@,
                Error::SerializationError(m) => "序列化错误: "@ + m@,
            },
    {
        match self {
            Error::IoError(e) => joined("IO 错误: ", e.as_str()),
            Error::ParseError { file, message } => {
                let a = joined("解析错误 ", file.as_str());
                let b = joined(a.as_str(), ": ");
                joined(b.as_str(), message.as_str())
            },
            Error::InvalidArgument(m) => joined("无效参数: ", m.as_str()),
            Error::FrameworkNotDetected => crate::strings::owned("未检测到支持的 Web 框架"),
            Error::SerializationError(m) => joined("序列化错误: ", m.as_str()),
        }
    }
}

} // verus!

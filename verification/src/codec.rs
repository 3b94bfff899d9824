//! Size limits of the request-response codec that carries the canvas between peers.
use std::marker::PhantomData;
use vstd::prelude::*;

verus! {

/// Limits on the bytes read for one request and for one response.
pub struct Codec<Req, Resp> {
    request_size_maximum: u64,
    response_size_maximum: u64,
    phantom: PhantomData<(Req, Resp)>,
}

impl<Req, Resp> Codec<Req, Resp> {
    /// The most bytes read for a request.
    pub closed spec fn request_limit(&self) -> u64 {
        self.request_size_maximum
    }

    /// The most bytes read for a response.
    pub closed spec fn response_limit(&self) -> u64 {
        self.response_size_maximum
    }

    /// Sets the limit for request size in bytes.
    pub fn set_request_size_maximum(self, request_size_maximum: u64) -> (c: Self)
        ensures
            c.request_limit() == request_size_maximum,
            c.response_limit() == self.response_limit(),
    {
        Codec { request_size_maximum, response_size_maximum: self.response_size_maximum, phantom: PhantomData }
    }

    /// Sets the limit for response size in bytes.
    pub fn set_response_size_maximum(self, response_size_maximum: u64) -> (c: Self)
        ensures
            c.request_limit() == self.request_limit(),
            c.response_limit() == response_size_maximum,
    {
        Codec { request_size_maximum: self.request_size_maximum, response_size_maximum, phantom: PhantomData }
    }

    /// The most bytes read for a request.
    pub fn request_size_maximum(&self) -> (n: u64)
        ensures
            n == self.request_limit(),
    {
        self.request_size_maximum
    }

    /// The most bytes read for a response.
    pub fn response_size_maximum(&self) -> (n: u64)
        ensures
            n == self.response_limit(),
    {
        self.response_size_maximum
    }
}

impl<Req, Resp> Default for Codec<Req, Resp> {
    /// One mebibyte for a request, ten for a response.
    fn default() -> (c: Self)
        ensures
            c.request_limit() == 1048576,
            c.response_limit() == 10485760,
    {
        Codec { request_size_maximum: 1024 * 1024, response_size_maximum: 10 * 1024 * 1024, phantom: PhantomData }
    }
}

impl<Req, Resp> Clone for Codec<Req, Resp> {
    fn clone(&self) -> (c: Self)
        ensures
            c.request_limit() == self.request_limit(),
            c.response_limit() == self.response_limit(),
    {
        Codec {
            request_size_maximum: self.request_size_maximum,
            response_size_maximum: self.response_size_maximum,
            phantom: PhantomData,
        }
    }
}

} // verus!

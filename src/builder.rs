//! Composition of an HTTP service from a service factory and a TLS acceptor.
use vstd::prelude::*;

verus! {

/// The parts an HTTP service is built from: the factory of the request
/// service, the handlers of `Expect` and upgrade requests, the factory of the
/// TLS acceptor, and the service configuration.
pub struct HttpServiceBuilder<F, FE, FU, FA, C> {
    pub factory: F,
    pub expect: FE,
    pub upgrade: FU,
    pub tls_factory: FA,
    pub config: C,
}

/// TLS through OpenSSL, wrapping its acceptor.
pub struct OpensslAcceptorService<A> {
    pub acceptor: A,
}

/// TLS through rustls, wrapping its server configuration.
pub struct RustlsAcceptorService<A> {
    pub config: A,
}

/// TLS through the platform's native library, wrapping its acceptor.
pub struct NativeTlsAcceptorService<A> {
    pub acceptor: A,
}

impl<F, FE, FU, FA, C> HttpServiceBuilder<F, FE, FU, FA, C> {
    /// The same builder, accepting connections through OpenSSL.
    pub fn openssl<A>(self, acceptor: A) -> (r: HttpServiceBuilder<
        F,
        FE,
        FU,
        OpensslAcceptorService<A>,
        C,
    >)
        ensures
            r.factory == self.factory,
            r.expect == self.expect,
            r.upgrade == self.upgrade,
            r.config == self.config,
            r.tls_factory.acceptor == acceptor,
    {
        HttpServiceBuilder {
            factory: self.factory,
            expect: self.expect,
            upgrade: self.upgrade,
            tls_factory: OpensslAcceptorService { acceptor },
            config: self.config,
        }
    }

    /// The same builder, accepting connections through rustls.
    pub fn rustls<A>(self, config: A) -> (r: HttpServiceBuilder<
        F,
        FE,
        FU,
        RustlsAcceptorService<A>,
        C,
    >)
        ensures
            r.factory == self.factory,
            r.expect == self.expect,
            r.upgrade == self.upgrade,
            r.config == self.config,
            r.tls_factory.config == config,
    {
        HttpServiceBuilder {
            factory: self.factory,
            expect: self.expect,
            upgrade: self.upgrade,
            tls_factory: RustlsAcceptorService { config },
            config: self.config,
        }
    }

    /// The same builder, accepting connections through the native TLS library.
    pub fn native_tls<A>(self, acceptor: A) -> (r: HttpServiceBuilder<
        F,
        FE,
        FU,
        NativeTlsAcceptorService<A>,
        C,
    >)
        ensures
            r.factory == self.factory,
            r.expect == self.expect,
            r.upgrade == self.upgrade,
            r.config == self.config,
            r.tls_factory.acceptor == acceptor,
    {
        HttpServiceBuilder {
            factory: self.factory,
            expect: self.expect,
            upgrade: self.upgrade,
            tls_factory: NativeTlsAcceptorService { acceptor },
            config: self.config,
        }
    }
}

} // verus!

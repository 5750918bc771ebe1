# vout

A local implementation of the AWS Systems Manager Parameter Store API,
written in Verus.

- `src/` is the verified library. `store`, `api`, `queries`, `labels` and
  `listing` hold the parameter tables and the operations on them, each
  with a contract over the tables' views; `validate`, `paging`, `model`
  and `error` hold the request rules and the answers; `sigv4` and `auth`
  check SigV4 signatures; `crypto`, `values` and `dbkey` frame encrypted
  values and the wrapped database key; `config`, `routing`, `account` and
  `tls` hold the service's defaults and decisions.
- `app/` is the service around it: configuration, the keyring, the
  database and the HTTP server.
- `tests/` exercises the library on concrete values.
